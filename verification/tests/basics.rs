#[test]
fn it_works() {
    let result = miniature_os::add(2, 2);
    assert_eq!(result, 4);
}
