use lingdocs::utils::separate_filename_ext;

#[test]
fn separate_filename_ext_works() {
    assert_eq!(separate_filename_ext("abc.def"), ("abc".to_string(), "def"));

    assert_eq!(separate_filename_ext("abc"), ("abc".to_string(), ""));

    assert_eq!(
        separate_filename_ext("abc.def.ghi"),
        ("abc.def".to_string(), "ghi")
    );

    assert_eq!(
        separate_filename_ext("abc.def.ghi.jkl"),
        ("abc.def.ghi".to_string(), "jkl")
    );
}

#[test]
fn separate_filename_ext_edges() {
    assert_eq!(separate_filename_ext(""), ("".to_string(), ""));
    assert_eq!(separate_filename_ext("abc."), ("abc".to_string(), ""));
    assert_eq!(separate_filename_ext(".abc"), ("".to_string(), "abc"));
}
