use dao_admin::Principal;

#[test]
fn principal_keeps_its_bytes() {
    let p = Principal::from_slice(&[1, 2, 3]);
    assert_eq!(p.to_vec(), vec![1u8, 2, 3]);
    assert_eq!(p.len(), 3);
    assert_eq!(Principal::anonymous().to_vec(), vec![4u8]);
    assert_eq!(Principal::management_canister().len(), 0);
}
