use autoenc::utils::{
    directory_read_step, multibyte_path_length, open_via, required_length, wide_path_length,
    DirectoryRead, OpenVia, MAX_PATH,
};

#[test]
fn directory_fits_or_grows() {
    assert_eq!(directory_read_step(MAX_PATH, 12), DirectoryRead::Done(12));
    assert_eq!(directory_read_step(MAX_PATH, 0), DirectoryRead::Done(0));
    assert_eq!(directory_read_step(MAX_PATH, 300), DirectoryRead::Grow(300));
    assert_eq!(directory_read_step(300, 299), DirectoryRead::Done(299));
    assert_eq!(directory_read_step(260, 260), DirectoryRead::Grow(260));
}

#[test]
fn routed_open_function() {
    assert_eq!(open_via(true, true, true), OpenVia::Wfsopen);
    assert_eq!(open_via(true, false, true), OpenVia::Wfopen);
    assert_eq!(open_via(false, true, true), OpenVia::Wfopen);
    assert_eq!(open_via(true, false, false), OpenVia::Fopen);
    assert_eq!(open_via(false, false, false), OpenVia::Fopen);
}

#[test]
fn conversion_lengths() {
    assert_eq!(required_length(0), None);
    assert_eq!(required_length(-1), None);
    assert_eq!(required_length(10), Some(10));
    assert_eq!(wide_path_length(0), None);
    assert_eq!(wide_path_length(6), Some(5));
    assert_eq!(multibyte_path_length(7, 0), Some(7));
    assert_eq!(multibyte_path_length(7, 1), None);
    assert_eq!(multibyte_path_length(0, 0), None);
}
