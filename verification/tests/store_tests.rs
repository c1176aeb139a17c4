use eczema_store::resource::{CallerId, CreateResourcePayload, EczemaError, ResourceCategory};
use eczema_store::store::EczemaStore;

fn payload(title: &str, description: &str, category: ResourceCategory) -> CreateResourcePayload {
    CreateResourcePayload {
        title: title.to_string(),
        description: description.to_string(),
        category,
    }
}

fn caller(bytes: &[u8]) -> CallerId {
    CallerId::new(bytes.to_vec())
}

#[test]
fn create_then_get_returns_equal_resource() {
    let mut s = EczemaStore::new();
    let created = s
        .create_resource(payload("Aloe vera", "A soothing gel", ResourceCategory::Treatment), 100)
        .unwrap();
    let fetched = s.get_resource(created.id).unwrap();
    assert_eq!(fetched.id, created.id);
    assert_eq!(fetched.title, created.title);
    assert_eq!(fetched.description, created.description);
    assert!(fetched.category == created.category);
    assert_eq!(fetched.created_at, created.created_at);
    assert_eq!(fetched.updated_at, created.updated_at);
    assert_eq!(fetched.verified, created.verified);
}

#[test]
fn create_fills_fields_and_allocates_from_one() {
    let mut s = EczemaStore::new();
    let r = s
        .create_resource(payload("Oatmeal baths", "Colloidal oatmeal", ResourceCategory::Prevention), 42)
        .unwrap();
    assert_eq!(r.id, 1);
    assert_eq!(r.title, "Oatmeal baths");
    assert_eq!(r.description, "Colloidal oatmeal");
    assert!(r.category == ResourceCategory::Prevention);
    assert_eq!(r.created_at, 42);
    assert_eq!(r.updated_at, 42);
    assert!(!r.verified);
}

#[test]
fn next_id_strictly_increases_and_ids_are_never_reused() {
    let mut s = EczemaStore::new();
    let a = s.create_resource(payload("A", "a", ResourceCategory::Research), 1).unwrap();
    let b = s.create_resource(payload("B", "b", ResourceCategory::Research), 2).unwrap();
    assert!(a.id < b.id);
    s.delete_resource(a.id).unwrap();
    let c = s.create_resource(payload("C", "c", ResourceCategory::Research), 3).unwrap();
    assert!(c.id > b.id);
    assert_ne!(c.id, a.id);
    assert!(matches!(s.get_resource(a.id), Err(EczemaError::NotFound)));
}

#[test]
fn failed_validation_consumes_no_id() {
    let mut s = EczemaStore::new();
    let bad = s.create_resource(payload("", "valid description", ResourceCategory::Research), 1);
    assert!(bad.is_err());
    let ok = s.create_resource(payload("Valid", "valid description", ResourceCategory::Research), 2).unwrap();
    assert_eq!(ok.id, 1);
}

#[test]
fn update_missing_id_returns_not_found() {
    let mut s = EczemaStore::new();
    let r = s.update_resource(99, payload("Fine", "fine", ResourceCategory::DietAdvice), 5);
    assert!(matches!(r, Err(EczemaError::NotFound)));
}

#[test]
fn update_validation_precedes_lookup() {
    let mut s = EczemaStore::new();
    s.create_resource(payload("Kept", "kept", ResourceCategory::DietAdvice), 5).unwrap();
    let long_title = "t".repeat(101);
    // Out-of-bounds title on an existing id: a validation error, not NotFound.
    let r1 = s.update_resource(1, payload(&long_title, "fine", ResourceCategory::DietAdvice), 6);
    assert!(matches!(r1, Err(EczemaError::InvalidInput(_))));
    // The same on a missing id still reports the validation error.
    let r2 = s.update_resource(99, payload(&long_title, "fine", ResourceCategory::DietAdvice), 6);
    assert!(matches!(r2, Err(EczemaError::InvalidInput(_))));
    // The stored resource is untouched.
    let kept = s.get_resource(1).unwrap();
    assert_eq!(kept.title, "Kept");
    assert_eq!(kept.updated_at, 5);
}

#[test]
fn update_overwrites_fields_and_keeps_id_created_at_verified() {
    let mut s = EczemaStore::new();
    let created = s.create_resource(payload("Old", "old", ResourceCategory::Treatment), 10).unwrap();
    let updated = s
        .update_resource(created.id, payload("New", "new text", ResourceCategory::Research), 20)
        .unwrap();
    assert_eq!(updated.id, created.id);
    assert_eq!(updated.title, "New");
    assert_eq!(updated.description, "new text");
    assert!(updated.category == ResourceCategory::Research);
    assert_eq!(updated.created_at, 10);
    assert_eq!(updated.updated_at, 20);
    assert!(!updated.verified);
}

#[test]
fn delete_removes_and_reports_missing() {
    let mut s = EczemaStore::new();
    let r = s.create_resource(payload("Gone soon", "bye", ResourceCategory::Testimonial), 1).unwrap();
    assert!(s.delete_resource(r.id).is_ok());
    assert!(matches!(s.delete_resource(r.id), Err(EczemaError::NotFound)));
    assert!(matches!(s.get_resource(r.id), Err(EczemaError::NotFound)));
}

#[test]
fn verify_before_any_set_admin_is_unauthorized_for_every_caller() {
    let mut s = EczemaStore::new();
    let r = s.create_resource(payload("Entry", "text", ResourceCategory::MedicalAdvice), 1).unwrap();
    for who in [&b"alice"[..], &b"bob"[..], &b""[..]] {
        let v = s.verify_resource(r.id, &caller(who), 2);
        assert!(matches!(v, Err(EczemaError::Unauthorized)));
    }
    assert!(!s.get_resource(r.id).unwrap().verified);
}

#[test]
fn verify_by_admin_sets_flag_and_keeps_other_fields() {
    let mut s = EczemaStore::new();
    let created = s.create_resource(payload("Entry", "text", ResourceCategory::MedicalAdvice), 10).unwrap();
    s.set_admin(caller(b"adminX")).unwrap();
    let verified = s.verify_resource(created.id, &caller(b"adminX"), 25).unwrap();
    assert!(verified.verified);
    assert_eq!(verified.title, created.title);
    assert_eq!(verified.description, created.description);
    assert!(verified.category == created.category);
    assert_eq!(verified.created_at, created.created_at);
    assert_eq!(verified.updated_at, 25);
    let fetched = s.get_resource(created.id).unwrap();
    assert!(fetched.verified);
    assert_eq!(fetched.updated_at, 25);
}

#[test]
fn verify_by_non_admin_is_unauthorized_and_missing_id_not_found() {
    let mut s = EczemaStore::new();
    let r = s.create_resource(payload("Entry", "text", ResourceCategory::Treatment), 1).unwrap();
    s.set_admin(caller(b"adminX")).unwrap();
    let v = s.verify_resource(r.id, &caller(b"mallory"), 2);
    assert!(matches!(v, Err(EczemaError::Unauthorized)));
    let v2 = s.verify_resource(999, &caller(b"adminX"), 2);
    assert!(matches!(v2, Err(EczemaError::NotFound)));
}

#[test]
fn latest_set_admin_wins() {
    let mut s = EczemaStore::new();
    let r = s.create_resource(payload("Entry", "text", ResourceCategory::Treatment), 1).unwrap();
    s.set_admin(caller(b"first")).unwrap();
    s.set_admin(caller(b"second")).unwrap();
    assert!(matches!(
        s.verify_resource(r.id, &caller(b"first"), 2),
        Err(EczemaError::Unauthorized)
    ));
    assert!(s.verify_resource(r.id, &caller(b"second"), 2).is_ok());
    assert!(s.is_admin(&caller(b"second")));
    assert!(!s.is_admin(&caller(b"first")));
}

#[test]
fn list_resources_returns_all_in_id_order() {
    let mut s = EczemaStore::new();
    s.create_resource(payload("One", "1", ResourceCategory::Treatment), 1).unwrap();
    s.create_resource(payload("Two", "2", ResourceCategory::Prevention), 2).unwrap();
    s.create_resource(payload("Three", "3", ResourceCategory::Treatment), 3).unwrap();
    let all = s.list_resources();
    assert_eq!(all.len(), 3);
    assert_eq!(all[0].id, 1);
    assert_eq!(all[1].id, 2);
    assert_eq!(all[2].id, 3);
}

#[test]
fn list_resources_by_category_filters() {
    let mut s = EczemaStore::new();
    s.create_resource(payload("One", "1", ResourceCategory::Treatment), 1).unwrap();
    s.create_resource(payload("Two", "2", ResourceCategory::Prevention), 2).unwrap();
    s.create_resource(payload("Three", "3", ResourceCategory::Treatment), 3).unwrap();
    let treatments = s.list_resources_by_category(ResourceCategory::Treatment);
    assert_eq!(treatments.len(), 2);
    assert_eq!(treatments[0].title, "One");
    assert_eq!(treatments[1].title, "Three");
    let diets = s.list_resources_by_category(ResourceCategory::DietAdvice);
    assert!(diets.is_empty());
}

#[test]
fn scenario_create_update_verify() {
    let mut s = EczemaStore::new();
    let created = s
        .create_resource(payload("Moisturizer basics", "Daily routine", ResourceCategory::Treatment), 1)
        .unwrap();
    assert_eq!(created.id, 1);
    assert!(!created.verified);
    let updated = s
        .update_resource(
            1,
            payload("Moisturizer basics v2", "Daily routine updated", ResourceCategory::Prevention),
            2,
        )
        .unwrap();
    assert!(updated.category == ResourceCategory::Prevention);
    assert_eq!(updated.id, 1);
    let early = s.verify_resource(1, &caller(b"adminX"), 3);
    assert!(matches!(early, Err(EczemaError::Unauthorized)));
    s.set_admin(caller(b"adminX")).unwrap();
    let verified = s.verify_resource(1, &caller(b"adminX"), 4).unwrap();
    assert!(verified.verified);
}
