use autoenc::hook::{find_import, is_target_crt_name, ImportDescriptor, ImportEntry};

fn descriptor(name: &str, entries: Vec<(usize, &str)>) -> ImportDescriptor {
    ImportDescriptor {
        dll_name: Ok(name.as_bytes().to_vec()),
        entries: Ok(entries
            .into_iter()
            .map(|(address, import)| (address, Ok(ImportEntry::ByName(import.as_bytes().to_vec()))))
            .collect()),
    }
}

#[test]
fn runtime_dll_names() {
    assert!(is_target_crt_name(b"MSVCR100.dll"));
    assert!(is_target_crt_name(b"msvcr90.dll"));
    assert!(!is_target_crt_name(b"msvcrt.dll"));
    assert!(!is_target_crt_name(b"MSVCRT20.DLL"));
    assert!(!is_target_crt_name(b"KERNEL32.dll"));
    assert!(!is_target_crt_name(b"MSVC"));
    assert!(is_target_crt_name(b"msvcr"));
}

#[test]
fn finds_first_runtime_import() {
    let descriptors = vec![
        descriptor("KERNEL32.dll", vec![(0x10, "fopen")]),
        descriptor("MSVCR100.dll", vec![(0x20, "malloc"), (0x24, "fopen"), (0x28, "_wfopen")]),
        descriptor("MSVCR90.dll", vec![(0x30, "fopen")]),
    ];
    assert_eq!(find_import(&descriptors, b"fopen").ok(), Some(Some(0x24)));
    assert_eq!(find_import(&descriptors, b"_wfopen").ok(), Some(Some(0x28)));
    assert_eq!(find_import(&descriptors, b"_wfsopen").ok(), Some(None));
}

#[test]
fn ordinal_imports_are_passed_over() {
    let descriptors = vec![ImportDescriptor {
        dll_name: Ok(b"msvcr100.dll".to_vec()),
        entries: Ok(vec![
            (0x40, Ok(ImportEntry::ByOrdinal(7))),
            (0x44, Ok(ImportEntry::ByName(b"fopen".to_vec()))),
        ]),
    }];
    assert_eq!(find_import(&descriptors, b"fopen").ok(), Some(Some(0x44)));
}

#[test]
fn errors_before_a_match_are_reported() {
    let descriptors = vec![
        ImportDescriptor { dll_name: Err(pelite::Error::Bounds), entries: Ok(vec![]) },
        descriptor("MSVCR100.dll", vec![(0x24, "fopen")]),
    ];
    assert_eq!(find_import(&descriptors, b"fopen").err(), Some(pelite::Error::Bounds));
    let descriptors = vec![
        descriptor("MSVCR100.dll", vec![(0x24, "fopen")]),
        ImportDescriptor { dll_name: Err(pelite::Error::Bounds), entries: Ok(vec![]) },
    ];
    assert_eq!(find_import(&descriptors, b"fopen").ok(), Some(Some(0x24)));
    let descriptors = vec![ImportDescriptor {
        dll_name: Ok(b"MSVCR100.dll".to_vec()),
        entries: Ok(vec![
            (0x20, Err(pelite::Error::Encoding)),
            (0x24, Ok(ImportEntry::ByName(b"fopen".to_vec()))),
        ]),
    }];
    assert_eq!(find_import(&descriptors, b"fopen").err(), Some(pelite::Error::Encoding));
    let descriptors = vec![ImportDescriptor {
        dll_name: Ok(b"MSVCR100.dll".to_vec()),
        entries: Err(pelite::Error::Invalid),
    }];
    assert_eq!(find_import(&descriptors, b"fopen").err(), Some(pelite::Error::Invalid));
}

#[test]
fn errors_of_other_dlls_entries_do_not_matter() {
    let descriptors = vec![
        ImportDescriptor { dll_name: Ok(b"KERNEL32.dll".to_vec()), entries: Err(pelite::Error::Invalid) },
        descriptor("MSVCR100.dll", vec![(0x24, "fopen")]),
    ];
    assert_eq!(find_import(&descriptors, b"fopen").ok(), Some(Some(0x24)));
}
