use afilia::filesystem::repository::RepositoryID;

#[test]
fn new_produces_unique_ids() {
    let mut ids: Vec<String> = Vec::new();
    for _ in 0..100 {
        let id = RepositoryID::new("sample", "payload");
        ids.push(id.uuid);
    }
    for i in 0..ids.len() {
        for j in (i + 1)..ids.len() {
            assert_ne!(ids[i], ids[j], "two identities shared a uuid");
        }
    }
}

#[test]
fn new_populates_all_fields() {
    let id = RepositoryID::new("myrepo", "secret");
    assert_eq!(id.name, "myrepo");
    assert_eq!(id.uuid.len(), 36);
    assert!(uuid::Uuid::parse_str(&id.uuid).is_ok());
    assert_eq!(id.sign.len(), 64);
    assert!(id.sign.chars().all(|c| c.is_ascii_hexdigit() && !c.is_ascii_uppercase()));
}

#[test]
fn signature_is_deterministic() {
    let a = RepositoryID::sign("5e8cf2ce-57a0-40fc-a945-ceeaa16f8d97", "myrepo", "secret");
    let b = RepositoryID::sign("5e8cf2ce-57a0-40fc-a945-ceeaa16f8d97", "myrepo", "secret");
    assert_eq!(a, b);
}

#[test]
fn signature_changes_with_each_component() {
    let base = RepositoryID::sign("5e8cf2ce-57a0-40fc-a945-ceeaa16f8d97", "myrepo", "secret");
    let other_uuid = RepositoryID::sign("6e8cf2ce-57a0-40fc-a945-ceeaa16f8d97", "myrepo", "secret");
    let other_name = RepositoryID::sign("5e8cf2ce-57a0-40fc-a945-ceeaa16f8d97", "myrepa", "secret");
    let other_payload =
        RepositoryID::sign("5e8cf2ce-57a0-40fc-a945-ceeaa16f8d97", "myrepo", "secres");
    assert_ne!(base, other_uuid);
    assert_ne!(base, other_name);
    assert_ne!(base, other_payload);
}

#[test]
fn signature_matches_blake3_of_colon_joined_triple() {
    let sign = RepositoryID::sign("5e8cf2ce-57a0-40fc-a945-ceeaa16f8d97", "myrepo", "secret");
    let expected = blake3::hash("5e8cf2ce-57a0-40fc-a945-ceeaa16f8d97:myrepo:secret".as_bytes());
    assert_eq!(sign, expected.to_hex().as_str());
}

#[test]
fn new_signs_its_own_uuid() {
    let id = RepositoryID::new("myrepo", "secret");
    let message = format!("{}:{}:{}", id.uuid, id.name, "secret");
    let expected = blake3::hash(message.as_bytes());
    assert_eq!(id.sign, expected.to_hex().as_str());
}
