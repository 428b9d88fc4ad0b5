use std::path::PathBuf;
use veritool_core::loader::{append_filelist, apply_filelist_line, classify_filelist_line, resolve_path, split_define, split_lines, FileList, FileListEntry};

#[test]
fn filelist_lines_are_classified() {
    assert!(matches!(classify_filelist_line("   "), FileListEntry::Skip));
    assert!(matches!(classify_filelist_line("// c"), FileListEntry::Skip));
    assert!(matches!(classify_filelist_line("# c"), FileListEntry::Skip));
    assert!(matches!(classify_filelist_line("notes.txt"), FileListEntry::Skip));
    match classify_filelist_line(" -f  sub.f ") {
        FileListEntry::FileList(p) => assert_eq!(p, "sub.f"),
        _ => panic!(),
    }
    match classify_filelist_line("+incdir+inc") {
        FileListEntry::IncDir(d) => assert_eq!(d, "inc"),
        _ => panic!(),
    }
    match classify_filelist_line("-D WIDTH=8") {
        FileListEntry::Define(n, v) => {
            assert_eq!(n, "WIDTH");
            assert_eq!(v.as_deref(), Some("8"));
        }
        _ => panic!(),
    }
    match classify_filelist_line("rtl/top.sv") {
        FileListEntry::Source(s) => assert_eq!(s, "rtl/top.sv"),
        _ => panic!(),
    }
    assert_eq!(split_define("X"), ("X".to_string(), None));
}

#[test]
fn paths_resolve_against_the_filelist_directory() {
    let base = PathBuf::from("proj/files.f");
    assert_eq!(resolve_path(&base, "rtl/a.sv"), PathBuf::from("proj/rtl/a.sv"));
    assert_eq!(resolve_path(&base, "/abs/b.sv"), PathBuf::from("/abs/b.sv"));
    assert_eq!(resolve_path(&PathBuf::from("/"), "c.sv"), PathBuf::from("./c.sv"));
}

#[test]
fn filelist_is_filled_line_by_line() {
    let base = PathBuf::from("proj/files.f");
    let mut list = FileList::new();
    let mut nested = Vec::new();
    for line in split_lines("a.sv\r\n+incdir+inc\n-D DEBUG\n-F more.f\n// skip\nb.v") {
        if let Some(p) = apply_filelist_line(&mut list, &base, &line) {
            nested.push(p);
        }
    }
    assert_eq!(list.files, vec![PathBuf::from("proj/a.sv"), PathBuf::from("proj/b.v")]);
    assert_eq!(list.include_dirs, vec![PathBuf::from("proj/inc")]);
    assert_eq!(list.defines, vec![("DEBUG".to_string(), None)]);
    assert_eq!(nested, vec![PathBuf::from("proj/more.f")]);
    let mut sub = FileList::new();
    sub.files.push(PathBuf::from("c.sv"));
    append_filelist(&mut list, sub);
    assert_eq!(list.files.len(), 3);
}

#[test]
fn lines_split_like_str_lines() {
    assert_eq!(split_lines(""), Vec::<String>::new());
    assert_eq!(split_lines("\n"), vec!["".to_string()]);
    assert_eq!(split_lines("a\n\nb\n"), vec!["a".to_string(), "".to_string(), "b".to_string()]);
    assert_eq!(split_lines("a\r\nb\r"), vec!["a".to_string(), "b\r".to_string()]);
    let text = "x\r\ny\n\nz\r";
    assert_eq!(split_lines(text), text.lines().map(|s| s.to_string()).collect::<Vec<_>>());
}
