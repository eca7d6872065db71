use pgbb::pg::md5::md5_password;

#[test]
fn test_1() {
    let result = md5_password(b"user", b"password", &[0, 0, 0, 0]);
    assert_eq!(result, *b"md526954954055dc4921b63361688476acf");
}

#[test]
fn test_zeros() {
    let result = md5_password(b"user", b"password", &[0, 129, 128, 43]);
    assert_eq!(result, *b"md50003108c669dd0773195cf7c18a00700");
}
