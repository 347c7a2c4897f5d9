use wikigit::codec::{get_branch_name, get_file_name, namespace_for_title};
use wikigit::pipeline::compose_document;

#[test]
fn handle_git_test_get_file_name() {
    assert_eq!(get_file_name("Hello world!", 0), "Main/Hello_world%21.md");
    assert_eq!(get_file_name("FOO_BAR BAZ", 0), "Main/FOO__BAR_BAZ.md");
}

#[test]
fn handle_git_test_get_branch_name() {
    assert_eq!(get_branch_name("Hello world.", 0), "Main%3AHello%20world%2E".to_string());
}

#[test]
fn test_get_file_name_usertalk_namespace() {
    assert_eq!(get_file_name("User Talk:Hello world!", 3), "User_Talk/Hello_world%21.md");
}

#[test]
fn test_get_file_name_file_namespace() {
    assert_eq!(get_file_name("File:foobar.png", 6), "File/foobar.png");
}

#[test]
fn test_get_branch_name_usertalk_namespace() {
    assert_eq!(
        get_branch_name("User Talk:Hello world.", 3),
        "User%20Talk%3AHello%20world%2E".to_string()
    );
}

#[test]
fn test_decode_branch_name() {
    assert_eq!(
        urlencoding::decode(&get_branch_name("Hello world.", 3)).unwrap(),
        "Hello world."
    );
}

#[test]
fn test_name_codec_deterministic() {
    assert_eq!(get_file_name("Some page (x)", 0), get_file_name("Some page (x)", 0));
    assert_eq!(get_branch_name("Some page (x)", 0), get_branch_name("Some page (x)", 0));
}

#[test]
fn test_file_name_non_ascii() {
    assert_eq!(get_file_name("H\u{e9}llo", 0), "Main/H%C3%A9llo.md");
}

#[test]
fn test_file_name_replaces_extension() {
    assert_eq!(get_file_name("Help:Guide v1.2", 12), "Help/Guide_v1.md");
}

#[test]
fn test_branch_name_never_contains_dot() {
    let b = get_branch_name("a.b.c d.e", 0);
    assert!(!b.contains('.'));
    assert!(b.contains("%2E"));
}

#[test]
fn test_branch_name_main_prefix() {
    let b = get_branch_name("Hello world.", 0);
    assert!(b.starts_with("Main%3A"));
}

#[test]
fn test_namespace_for_title() {
    assert_eq!(namespace_for_title("Talk:Foo"), 1);
    assert_eq!(namespace_for_title("User talk:Foo"), 2);
    assert_eq!(namespace_for_title("File:Foo.png"), 6);
    assert_eq!(namespace_for_title("DeveloperWiki:Foo"), 3000);
    assert_eq!(namespace_for_title("Installation guide"), 0);
}

#[test]
fn test_compose_document() {
    assert_eq!(
        compose_document("Article title", "The Text of the file"),
        "# Article title\n\nThe Text of the file"
    );
}

#[test]
fn test_empty_title() {
    assert_eq!(get_file_name("", 0), "Main/.md");
    assert_eq!(get_branch_name("", 0), "Main%3A");
}
