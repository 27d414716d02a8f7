use swc_lexer::text::{push_blank, slice};

#[test]
fn slice_between_boundaries() {
    assert_eq!(slice("aé€b", 1, 6), "é€");
    assert_eq!(slice("aé€b", 0, 7), "aé€b");
    assert_eq!(slice("aé€b", 3, 3), "");
}

#[test]
fn blank_is_appended() {
    let mut text = String::from("x");
    push_blank(&mut text, 3);
    assert_eq!(text, "x   ");
    push_blank(&mut text, 0);
    assert_eq!(text, "x   ");
}
