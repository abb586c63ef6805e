use illium::session::valid_identity;

#[test]
fn identities_are_textual_guids() {
    assert!(valid_identity("0f8fad5b-d9cb-469f-a165-70867728950e"));
    assert!(valid_identity("0F8FAD5B-D9CB-469F-A165-70867728950E"));
    assert!(!valid_identity("0f8fad5b-d9cb-469f-a165-70867728950"));
    assert!(!valid_identity("0f8fad5bdd9cb-469f-a165-70867728950e"));
    assert!(!valid_identity("0f8fad5g-d9cb-469f-a165-70867728950e"));
    assert!(!valid_identity("{0f8fad5b-d9cb-469f-a165-70867728950e}"));
    assert!(!valid_identity(""));
}
