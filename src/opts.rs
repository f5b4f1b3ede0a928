//! The options of one run, and where its archive goes.
use vstd::prelude::*;
use vstd::string::*;

verus! {

/// The suffix given to a derived archive name.
pub open spec fn archive_suffix() -> Seq<char> {
    seq!['.', 'c', 'b', 'z']
}

/// The name used when the source path has no final name of its own.
pub open spec fn fallback_name() -> Seq<char> {
    seq!['a', 'r', 'c', 'h', 'i', 'v', 'e']
}

/// The path without its trailing separators and trailing `/.` components.
pub open spec fn trim_tail(p: Seq<char>) -> Seq<char>
    decreases p.len(),
{
    if p.len() > 0 && p.last() == '/' {
        trim_tail(p.drop_last())
    } else if p.len() >= 2 && p.last() == '.' && p[p.len() - 2] == '/' {
        trim_tail(p.drop_last())
    } else {
        p
    }
}

/// Where the last component of `t` begins: just after its last separator.
pub open spec fn name_start(t: Seq<char>) -> int
    decreases t.len(),
{
    if t.len() == 0 {
        0
    } else if t.last() == '/' {
        t.len() as int
    } else {
        name_start(t.drop_last())
    }
}

/// The final name of a path: its last component, unless that is empty,
/// `.` or `..` (a root, an empty path, a parent reference).
pub open spec fn final_name(p: Seq<char>) -> Option<Seq<char>> {
    let t = trim_tail(p);
    let n = t.subrange(name_start(t), t.len() as int);
    if n.len() == 0 || n == seq!['.'] || n == seq!['.', '.'] {
        None
    } else {
        Some(n)
    }
}

/// The archive path derived from a source path: the source's final name with
/// the suffix appended, beside the source; or the fallback name inside the
/// path, where it has no final name.
pub open spec fn derived_destination(p: Seq<char>) -> Seq<char> {
    match final_name(p) {
        Some(_) => trim_tail(p) + archive_suffix(),
        None => if p.len() > 0 && p.last() != '/' {
            p + seq!['/'] + fallback_name() + archive_suffix()
        } else {
            p + fallback_name() + archive_suffix()
        },
    }
}

/// Where the archive of a run goes: the explicit output, when one is given.
pub open spec fn destination_of(path: Seq<char>, output: Option<Seq<char>>) -> Seq<char> {
    match output {
        Some(o) => o,
        None => derived_destination(path),
    }
}

/// The view of an optional string.
pub open spec fn output_view(output: Option<String>) -> Option<Seq<char>> {
    match output {
        Some(o) => Some(o@),
        None => None,
    }
}

/// An explicit destination is used as given, whatever the source path.
pub proof fn explicit_destination_wins(path: Seq<char>, output: Seq<char>)
    ensures
        destination_of(path, Some(output)) == output,
{
}

/// The destination depends on the options alone: two runs with the same
/// source path and the same explicit output write to the same place.
pub proof fn destination_is_deterministic(a: &Opts, b: &Opts)
    requires
        a.path@ == b.path@,
        output_view(a.output) == output_view(b.output),
    ensures
        destination_of(a.path@, output_view(a.output)) == destination_of(b.path@, output_view(b.output)),
{
}

/// The derived destination keeps the source's final name whole, dots and
/// spaces included, and only appends the suffix to it.
pub proof fn derived_name_is_kept(path: Seq<char>)
    requires
        final_name(path) is Some,
    ensures
        derived_destination(path) == trim_tail(path) + archive_suffix(),
        derived_destination(path).subrange(0, trim_tail(path).len() as int) == trim_tail(path),
{
    let t = trim_tail(path);
    assert((t + archive_suffix()).subrange(0, t.len() as int) =~= t);
}

/// The options of one run.
pub struct Opts {
    /// The directory whose files are archived.
    pub path: String,
    /// Where the archive goes; derived from `path` when absent.
    pub output: Option<String>,
    /// Whether the source directory is removed once the archive is written.
    pub force: bool,
}

proof fn lemma_trim_prefix(p: Seq<char>, k: int)
    requires
        0 < k <= p.len(),
        p[k - 1] == '/' || (k >= 2 && p[k - 1] == '.' && p[k - 2] == '/'),
    ensures
        trim_tail(p.subrange(0, k)) == trim_tail(p.subrange(0, k - 1)),
{
    let s = p.subrange(0, k);
    assert(s.drop_last() =~= p.subrange(0, k - 1));
}

proof fn lemma_name_start_step(t: Seq<char>, j: int)
    requires
        0 < j <= t.len(),
        t[j - 1] != '/',
    ensures
        name_start(t.subrange(0, j)) == name_start(t.subrange(0, j - 1)),
{
    assert(t.subrange(0, j).drop_last() =~= t.subrange(0, j - 1));
}

proof fn lemma_name_start_at_sep(t: Seq<char>, j: int)
    requires
        0 < j <= t.len(),
        t[j - 1] == '/',
    ensures
        name_start(t.subrange(0, j)) == j,
{
}

/// The length of `trim_tail(p)`, with the proof that it is a prefix of `p`.
fn trimmed_len(p: &str) -> (k: usize)
    ensures
        k <= p@.len(),
        trim_tail(p@) == p@.subrange(0, k as int),
{
    let n = p.unicode_len();
    let mut k: usize = n;
    proof {
        assert(p@.subrange(0, n as int) =~= p@);
    }
    while k > 0
        invariant
            k <= n == p@.len(),
            trim_tail(p@) == trim_tail(p@.subrange(0, k as int)),
        ensures
            k <= n,
            trim_tail(p@) == p@.subrange(0, k as int),
        decreases k,
    {
        let c = p.get_char(k - 1);
        if c == '/' || (c == '.' && k >= 2 && p.get_char(k - 2) == '/') {
            proof {
                lemma_trim_prefix(p@, k as int);
                if k == 1 {
                    assert(trim_tail(p@.subrange(0, 0)) == p@.subrange(0, 0));
                }
            }
            k = k - 1;
        } else {
            proof {
                let s = p@.subrange(0, k as int);
                assert(s.last() == c);
                if k >= 2 {
                    assert(s[s.len() - 2] == p@[k - 2]);
                }
            }
            break;
        }
    }
    k
}

/// Where the final name of `p[..k]` begins.
fn name_start_of(p: &str, k: usize) -> (i: usize)
    requires
        k <= p@.len(),
    ensures
        i <= k,
        i as int == name_start(p@.subrange(0, k as int)),
{
    let ghost t = p@.subrange(0, k as int);
    let mut j: usize = k;
    proof {
        assert(t.subrange(0, k as int) =~= t);
    }
    while j > 0
        invariant
            j <= k <= p@.len(),
            t == p@.subrange(0, k as int),
            name_start(t) == name_start(t.subrange(0, j as int)),
        decreases j,
    {
        if p.get_char(j - 1) == '/' {
            proof {
                lemma_name_start_at_sep(t, j as int);
            }
            return j;
        }
        proof {
            lemma_name_start_step(t, j as int);
        }
        j = j - 1;
    }
    proof {
        assert(t.subrange(0, 0) =~= Seq::<char>::empty());
    }
    0
}

/// Whether `p[i..k]` is a usable final name: not empty, `.` or `..`.
fn is_proper_name(p: &str, i: usize, k: usize) -> (r: bool)
    requires
        i <= k <= p@.len(),
    ensures
        r == !(p@.subrange(i as int, k as int).len() == 0
            || p@.subrange(i as int, k as int) == seq!['.']
            || p@.subrange(i as int, k as int) == seq!['.', '.']),
{
    let ghost n = p@.subrange(i as int, k as int);
    if k == i {
        return false;
    }
    if k - i == 1 {
        let r = p.get_char(i) != '.';
        proof {
            if !r {
                assert(n =~= seq!['.']);
            } else {
                assert(n[0] != seq!['.'][0]);
                assert(n.len() != seq!['.', '.'].len());
            }
        }
        return r;
    }
    if k - i == 2 {
        let r = !(p.get_char(i) == '.' && p.get_char(i + 1) == '.');
        proof {
            if !r {
                assert(n =~= seq!['.', '.']);
            } else {
                assert(n[0] != '.' || n[1] != '.');
                assert(seq!['.', '.'][0] == '.' && seq!['.', '.'][1] == '.');
                assert(n.len() != seq!['.'].len());
            }
        }
        return r;
    }
    assert(n.len() != seq!['.'].len() && n.len() != seq!['.', '.'].len());
    true
}

/// The archive path derived from a source path, as `derived_destination`
/// describes it.
pub fn derive_destination(p: &str) -> (r: String)
    ensures
        r@ == derived_destination(p@),
{
    let k = trimmed_len(p);
    let i = name_start_of(p, k);
    let ghost t = trim_tail(p@);
    proof {
        assert(t.subrange(name_start(t), t.len() as int) =~= p@.subrange(i as int, k as int));
    }
    if is_proper_name(p, i, k) {
        let mut r = String::from_str(p.substring_char(0, k));
        r.append(".cbz");
        proof {
            reveal_strlit(".cbz");
            assert(r@ =~= t + archive_suffix());
        }
        r
    } else {
        let n = p.unicode_len();
        let mut r = String::from_str(p);
        if n > 0 && p.get_char(n - 1) != '/' {
            r.append("/");
        }
        r.append("archive.cbz");
        proof {
            reveal_strlit("/");
            reveal_strlit("archive.cbz");
            assert(fallback_name() + archive_suffix() =~= "archive.cbz"@);
            if p@.len() > 0 && p@.last() != '/' {
                assert(r@ =~= p@ + seq!['/'] + fallback_name() + archive_suffix());
            } else {
                assert(r@ =~= p@ + fallback_name() + archive_suffix());
            }
        }
        r
    }
}

impl Opts {
    /// The directory whose files are archived.
    pub fn source(&self) -> (r: &str)
        ensures
            r@ == self.path@,
    {
        self.path.as_str()
    }

    /// Where the archive goes: the explicit output if there is one, else the
    /// derived destination of the source path.
    pub fn destination(&self) -> (r: String)
        ensures
            r@ == destination_of(self.path@, output_view(self.output)),
    {
        match &self.output {
            Some(o) => o.clone(),
            None => derive_destination(self.path.as_str()),
        }
    }
}

} // verus!
