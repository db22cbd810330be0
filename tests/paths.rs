use package_new::paths::{file_name_of, join_path, relative_path, shorten_path};

#[test]
fn relative_path_strips_root_and_separators() {
    assert_eq!("a/b.move", relative_path("/t/_coin/sources", "/t/_coin/sources/a/b.move"));
    assert_eq!("a.move", relative_path("/t/src/", "/t/src/a.move"));
    assert_eq!("x/y", relative_path("/other", "//x/y"));
}

#[test]
fn join_path_adds_one_separator() {
    assert_eq!("/p/sources", join_path("/p", "sources"));
    assert_eq!("/p/sources", join_path("/p/", "sources"));
    assert_eq!("sources", join_path("", "sources"));
}

#[test]
fn file_name_of_paths() {
    assert_eq!(Some("my_package".to_string()), file_name_of("/tmp/my_package"));
    assert_eq!(Some("b".to_string()), file_name_of("/a/b//"));
    assert_eq!(None, file_name_of("/"));
    assert_eq!(None, file_name_of(""));
    assert_eq!(None, file_name_of("/a/.."));
}

#[test]
fn shorten_long_paths() {
    assert_eq!("short/path", shorten_path("short/path"));
    let long = "/a/very/long/path/that/goes/on/and/on.move";
    let s = shorten_path(long);
    assert_eq!(30, s.chars().count());
    assert_eq!(format!("..{}", &long[long.len() - 28..]), s);
}

#[test]
fn shorten_measures_bytes() {
    let wide = "é".repeat(20);
    assert_eq!(format!("..{}", "é".repeat(14)), shorten_path(&wide));
    let short = "é".repeat(15);
    assert_eq!(short, shorten_path(&short));
    let odd = format!("{}a", "é".repeat(15));
    assert_eq!(format!("..{}a", "é".repeat(13)), shorten_path(&odd));
}
