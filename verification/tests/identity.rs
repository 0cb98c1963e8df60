use parcom_streams::identity::Identity;

#[test]
fn identity_equals_its_clone() {
    let a = Identity::new();
    let b = a.clone();
    assert!(a == b);
    assert!(a == a);
    assert!(Identity::new() != a);
}

#[test]
fn not_equals() {
    let n = 0x1FFFF;
    let mut ids = Vec::new();

    for _ in 0..n {
        let id = Identity::new();
        assert!(ids.iter().all(|e| e != &id));
        ids.push(id);
    }
}
