use cbz::opts::{derive_destination, Opts};

fn opts(path: &str, output: Option<&str>) -> Opts {
    Opts { path: String::from(path), output: output.map(String::from), force: false }
}

#[test]
fn destination() {
    let opts = Opts { path: String::from("/Red vs. Blue"), output: None, force: false };
    assert_eq!(opts.destination(), "/Red vs. Blue.cbz");
}

#[test]
fn explicit_output_is_used_unchanged() {
    assert_eq!(opts("/Red vs. Blue", Some("elsewhere/out.cbz")).destination(), "elsewhere/out.cbz");
    assert_eq!(opts("", Some("")).destination(), "");
    assert_eq!(opts("/", Some("/x.zip")).destination(), "/x.zip");
}

#[test]
fn derivation_is_deterministic() {
    let o = opts("comics/Issue 1", None);
    assert_eq!(o.destination(), o.destination());
}

#[test]
fn source_is_the_path() {
    assert_eq!(opts("comics/Issue 1", None).source(), "comics/Issue 1");
}

#[test]
fn dotted_names_are_not_truncated() {
    assert_eq!(derive_destination("books/vol.2"), "books/vol.2.cbz");
    assert_eq!(derive_destination("a.b.c"), "a.b.c.cbz");
    assert_eq!(derive_destination("relative"), "relative.cbz");
    assert_eq!(opts("/comics/Vol. 2.old", None).destination(), "/comics/Vol. 2.old.cbz");
}

#[test]
fn trailing_separators_are_ignored() {
    assert_eq!(derive_destination("comics/Red vs. Blue/"), "comics/Red vs. Blue.cbz");
    assert_eq!(derive_destination("comics//"), "comics.cbz");
    assert_eq!(derive_destination("comics/."), "comics.cbz");
}

#[test]
fn unnamed_paths_use_the_fallback_name() {
    assert_eq!(derive_destination("/"), "/archive.cbz");
    assert_eq!(derive_destination(""), "archive.cbz");
    assert_eq!(derive_destination("."), "./archive.cbz");
    assert_eq!(derive_destination(".."), "../archive.cbz");
    assert_eq!(derive_destination("a/.."), "a/../archive.cbz");
}

#[test]
fn non_ascii_names_are_kept() {
    assert_eq!(derive_destination("/bandes dessinées/Tintin é"), "/bandes dessinées/Tintin é.cbz");
}
