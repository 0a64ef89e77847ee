//! Where daemons keep their files.

use wand_render::paths::{
    config_suffix, lexical_absolute, render_paths, structured_render_paths,
    WINDOWS_UNSUPPORTED_MESSAGE,
};

fn bytes(text: &str) -> Vec<u8> {
    text.as_bytes().to_vec()
}

#[test]
fn suffix_matches_python_sha256_for_known_paths() {
    assert_eq!(config_suffix(b"/tmp/wand-render-config.json"), "0bc2538acaf7");
    assert_eq!(config_suffix(b"/tmp/wand-dev/config.json"), "262a247724e8");
}

#[test]
fn socket_path_uses_uid_and_suffix() {
    let uid = 1000;
    let paths = render_paths(b"/tmp/wand-render-config.json", None, None, uid);
    assert_eq!(
        paths.socket_path,
        bytes(&format!("/tmp/wand-render-{uid}-0bc2538acaf7.sock"))
    );
    assert_eq!(paths.token_path, bytes("/tmp/.render-0bc2538acaf7.token"));
    assert_eq!(paths.pid_path, bytes("/tmp/.render-0bc2538acaf7.pid"));
    assert_eq!(paths.meta_path, bytes("/tmp/.render-0bc2538acaf7.json"));
}

#[test]
fn meta_files_live_next_to_the_config() {
    let paths = render_paths(b"/tmp/wand-dev/config.json", None, None, 1000);
    assert_eq!(paths.config_dir(), bytes("/tmp/wand-dev"));
    assert_eq!(paths.token_path, bytes("/tmp/wand-dev/.render-262a247724e8.token"));
}

#[test]
fn normalizes_like_path_resolve() {
    assert_eq!(
        lexical_absolute(b"/tmp/a/../b/./config.json", None),
        bytes("/tmp/b/config.json")
    );
    assert_eq!(lexical_absolute(b"/../../../x", None), bytes("/x"));
}

#[test]
fn relative_paths_start_at_the_working_directory() {
    let cwd: Option<&[u8]> = Some(b"/home/me");
    assert_eq!(lexical_absolute(b"config.json", cwd), bytes("/home/me/config.json"));
    assert_eq!(lexical_absolute(b"./a/..//b/", cwd), bytes("/home/me/b"));
    assert_eq!(lexical_absolute(b"../../../x", cwd), bytes("/x"));
    assert_eq!(lexical_absolute(b"", cwd), bytes("/home/me"));
    assert_eq!(lexical_absolute(b"/etc/x", cwd), bytes("/etc/x"));
    assert_eq!(lexical_absolute(b"x", Some(b"/")), bytes("/x"));
}

#[test]
fn paths_without_a_known_working_directory_stay_relative() {
    assert_eq!(lexical_absolute(b"a/./b", None), bytes("a/b"));
    assert_eq!(lexical_absolute(b"a/..", None), bytes("/"));
    assert_eq!(lexical_absolute(b"../a", None), bytes("/a"));
    assert_eq!(lexical_absolute(b"", None), bytes("/"));
    assert_eq!(lexical_absolute(b".../..a", None), bytes(".../..a"));
}

#[test]
fn an_absolute_path_is_final() {
    for path in ["/", "//", "/a/b/../../..", "/x//y/./z/", "/..a/.b./..."] {
        let once = lexical_absolute(path.as_bytes(), None);
        assert_eq!(lexical_absolute(&once, Some(b"/elsewhere")), once);
        assert_eq!(once[0], b'/');
    }
}

#[test]
fn a_path_that_exists_is_known_by_what_its_links_lead_to() {
    let canonical: Option<&[u8]> = Some(b"/tmp/wand-dev/config.json");
    let paths = render_paths(b"/var/link.json", None, canonical, 7);
    assert_eq!(paths.socket_path, bytes("/tmp/wand-render-7-262a247724e8.sock"));
    assert_eq!(paths.config_dir(), bytes("/tmp/wand-dev"));
}

#[test]
fn files_of_a_config_in_the_root_directory() {
    let suffix = config_suffix(b"/config.json");
    let paths = render_paths(b"/config.json", None, None, 0);
    assert_eq!(paths.token_path, bytes(&format!("/.render-{suffix}.token")));
    assert_eq!(paths.config_dir(), bytes("/"));
}

#[test]
fn structured_daemons_have_their_own_namespace() {
    let paths = structured_render_paths(b"/tmp/wand-dev/config.json", None, None, 1000);
    assert_eq!(
        paths.socket_path,
        bytes("/tmp/wand-structured-render-1000-262a247724e8.sock")
    );
    assert_eq!(
        paths.token_path,
        bytes("/tmp/wand-dev/.structured-render-262a247724e8.token")
    );
    assert_eq!(paths.pid_path, bytes("/tmp/wand-dev/.structured-render-262a247724e8.pid"));
    assert_eq!(paths.meta_path, bytes("/tmp/wand-dev/.structured-render-262a247724e8.json"));
    let terminal = render_paths(b"/tmp/wand-dev/config.json", None, None, 1000);
    assert_ne!(paths.socket_path, terminal.socket_path);
    assert_ne!(paths.token_path, terminal.token_path);
}

#[test]
fn the_message_for_windows_says_what_is_missing() {
    assert!(WINDOWS_UNSUPPORTED_MESSAGE.contains("Windows"));
}
