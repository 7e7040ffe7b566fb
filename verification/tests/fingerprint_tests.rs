use ajour_core::fingerprint::fingerprint_folder;
use ajour_core::fingerprint::SourceFile;

fn file(name: &str, content: &[u8]) -> SourceFile {
    SourceFile { name: name.to_string(), content: content.to_vec() }
}

#[test]
fn fingerprint_is_deterministic() {
    let a = vec![
        file("Core.lua", b"local x = 1\nprint(x)\n"),
        file("Addon.toc", b"## Interface: 90001\nCore.lua\n"),
    ];
    let b = vec![
        file("Core.lua", b"local x = 1\nprint(x)\n"),
        file("Addon.toc", b"## Interface: 90001\nCore.lua\n"),
    ];
    assert_eq!(fingerprint_folder(&a), fingerprint_folder(&b));
}

#[test]
fn fingerprint_ignores_listing_order() {
    let a = vec![
        file("Core.lua", b"local x = 1\n"),
        file("Addon.toc", b"## Title: A\n"),
        file("Extra.lua", b"return 2\n"),
    ];
    let b = vec![
        file("Extra.lua", b"return 2\n"),
        file("Core.lua", b"local x = 1\n"),
        file("Addon.toc", b"## Title: A\n"),
    ];
    assert_eq!(fingerprint_folder(&a), fingerprint_folder(&b));
}

#[test]
fn fingerprint_ignores_non_source_files() {
    let a = vec![
        file("Core.lua", b"local x = 1\n"),
        file("readme.txt", b"hello\n"),
    ];
    // A whitespace-only edit to a file that is not a source file.
    let b = vec![
        file("Core.lua", b"local x = 1\n"),
        file("readme.txt", b"hello   \n\n"),
    ];
    // And one with the file gone entirely.
    let c = vec![file("Core.lua", b"local x = 1\n")];
    assert_eq!(fingerprint_folder(&a), fingerprint_folder(&b));
    assert_eq!(fingerprint_folder(&a), fingerprint_folder(&c));
}

#[test]
fn fingerprint_ignores_whitespace_in_source() {
    let a = vec![file("Core.lua", b"local x = 1\nprint(x)\n")];
    let b = vec![file("Core.lua", b"local  x  =  1\n\tprint(x)\t\r\n")];
    assert_eq!(fingerprint_folder(&a), fingerprint_folder(&b));
}

#[test]
fn fingerprint_ignores_comment_lines() {
    let a = vec![file("Core.lua", b"local x = 1\n")];
    let b = vec![file("Core.lua", b"-- a comment line\nlocal x = 1\n  -- another\n")];
    assert_eq!(fingerprint_folder(&a), fingerprint_folder(&b));

    let c = vec![file("Addon.toc", b"Core.lua\n")];
    let d = vec![file("Addon.toc", b"# comment\nCore.lua\n")];
    assert_eq!(fingerprint_folder(&c), fingerprint_folder(&d));
}

#[test]
fn fingerprint_changes_on_significant_byte() {
    let a = vec![file("Core.lua", b"local x = 1\n")];
    let b = vec![file("Core.lua", b"local x = 2\n")];
    assert_ne!(fingerprint_folder(&a), fingerprint_folder(&b));
}

#[test]
fn fingerprint_keeps_half_marker_code() {
    // A line starting with a single marker byte is code, not a comment.
    let a = vec![file("Core.lua", b"-x\n")];
    let b = vec![file("Core.lua", b"\n")];
    assert_ne!(fingerprint_folder(&a), fingerprint_folder(&b));
}
