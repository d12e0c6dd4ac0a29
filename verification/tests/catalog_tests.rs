use iloveu::catalog::{Catalog, CatalogError};
use iloveu::types::MediaType;

fn started(password: &str) -> Catalog {
    Catalog::new(String::from(password), Vec::new()).expect("an empty log replays cleanly")
}

fn logged_in(password: &str) -> (Catalog, [u8; 32]) {
    let mut catalog = started(password);
    let token = catalog
        .login(&String::from(password))
        .expect("the right password logs in");
    (catalog, token)
}

#[test]
fn login_rejects_wrong_password() {
    let mut catalog = started("secret");
    assert_eq!(
        catalog.login(&String::from("wrong")),
        Err(CatalogError::Unauthorized)
    );
}

#[test]
fn login_accepts_right_password() {
    let mut catalog = started("secret");
    let token = catalog.login(&String::from("secret")).unwrap();
    assert!(catalog.validate(&token));
}

#[test]
fn operations_demand_a_valid_token() {
    let mut catalog = started("secret");
    let stranger = [7u8; 32];
    assert_eq!(
        catalog.add_tag(&stranger, String::from("family")),
        Err(CatalogError::Unauthorized)
    );
    assert!(catalog.list_tags(&stranger).is_err());
    assert!(catalog.list_media(&stranger).is_err());
    assert!(catalog.stream_media_blob(&stranger, 0).is_err());
    assert!(catalog.export_raw_log(&stranger).is_err());
}

#[test]
fn end_to_end_scenario() {
    let (mut catalog, token) = logged_in("secret");

    assert_eq!(catalog.add_tag(&token, String::from("family")), Ok(0));
    assert_eq!(catalog.add_tag(&token, String::from("trip")), Ok(1));

    let blob = vec![0xABu8; 100];
    let media_id = catalog
        .add_media(
            &token,
            String::from("Beach"),
            String::from(""),
            vec![0, 1],
            1700000000.0f64.to_bits(),
            MediaType::Picture,
            String::from("b.jpg"),
            blob.clone(),
        )
        .unwrap();
    assert_eq!(media_id, 0);

    let media = catalog.list_media(&token).unwrap();
    assert_eq!(media.len(), 1);
    assert_eq!(media[0].title, "Beach");
    assert_eq!(media[0].description, "");
    assert_eq!(media[0].tags_vec, vec![0, 1]);
    assert_eq!(f64::from_bits(media[0].taken_datetime_bits), 1700000000.0);
    assert_eq!(media[0].filename, "b.jpg");
    assert_eq!(media[0].file_reference.size, 100);

    let (bytes, filename) = catalog.stream_media_blob(&token, 0).unwrap();
    assert_eq!(bytes, blob);
    assert_eq!(filename, "b.jpg");
}

#[test]
fn tag_and_media_ids_count_up_per_namespace() {
    let (mut catalog, token) = logged_in("pw");
    assert_eq!(catalog.add_tag(&token, String::from("a")), Ok(0));
    assert_eq!(catalog.add_tag(&token, String::from("b")), Ok(1));
    let add = |c: &mut Catalog, title: &str| {
        c.add_media(
            &token,
            String::from(title),
            String::from("d"),
            vec![],
            0,
            MediaType::Video,
            String::from("f.mp4"),
            vec![1, 2, 3],
        )
        .unwrap()
    };
    assert_eq!(add(&mut catalog, "x"), 0);
    assert_eq!(add(&mut catalog, "y"), 1);
    assert_eq!(catalog.add_tag(&token, String::from("c")), Ok(2));
    assert_eq!(add(&mut catalog, "z"), 2);
}

#[test]
fn unknown_media_id_is_not_found() {
    let (catalog, token) = logged_in("pw");
    assert_eq!(
        catalog.stream_media_blob(&token, 0),
        Err(CatalogError::NotFound)
    );
}

#[test]
fn replaying_the_exported_log_rebuilds_the_same_catalog() {
    let (mut catalog, token) = logged_in("pw");
    catalog.add_tag(&token, String::from("family")).unwrap();
    catalog.add_tag(&token, String::from("trip")).unwrap();
    let blob: Vec<u8> = (0u16..600).map(|i| (i % 251) as u8).collect();
    catalog
        .add_media(
            &token,
            String::from("Beach"),
            String::from("long walk"),
            vec![1],
            42.5f64.to_bits(),
            MediaType::Picture,
            String::from("beach.png"),
            blob.clone(),
        )
        .unwrap();

    let log = catalog.export_raw_log(&token).unwrap().clone();
    let mut rebuilt = Catalog::new(String::from("pw"), log).unwrap();
    let token2 = rebuilt.login(&String::from("pw")).unwrap();

    let tags_before = catalog.list_tags(&token).unwrap().clone();
    let tags_after = rebuilt.list_tags(&token2).unwrap().clone();
    assert_eq!(tags_before, tags_after);

    let media_before = catalog.list_media(&token).unwrap();
    let media_after = rebuilt.list_media(&token2).unwrap();
    assert_eq!(media_before.len(), media_after.len());
    for (a, b) in media_before.iter().zip(media_after.iter()) {
        assert_eq!(a.title, b.title);
        assert_eq!(a.description, b.description);
        assert_eq!(a.tags_vec, b.tags_vec);
        assert_eq!(a.taken_datetime_bits, b.taken_datetime_bits);
        assert_eq!(a.filename, b.filename);
        assert_eq!(a.file_reference, b.file_reference);
    }

    let (bytes, _) = rebuilt.stream_media_blob(&token2, 0).unwrap();
    assert_eq!(bytes, blob);
}

#[test]
fn logout_withdraws_the_token() {
    let (mut catalog, token) = logged_in("pw");
    assert!(catalog.logout(token));
    assert!(!catalog.validate(&token));
    assert_eq!(
        catalog.add_tag(&token, String::from("family")),
        Err(CatalogError::Unauthorized)
    );
    // A second withdrawal finds nothing.
    assert!(!catalog.logout(token));
}

#[test]
fn empty_names_and_empty_payloads_are_stored_faithfully() {
    let (mut catalog, token) = logged_in("pw");
    assert_eq!(catalog.add_tag(&token, String::new()), Ok(0));
    let id = catalog
        .add_media(
            &token,
            String::new(),
            String::new(),
            vec![],
            0,
            MediaType::Picture,
            String::new(),
            Vec::new(),
        )
        .unwrap();
    let (bytes, filename) = catalog.stream_media_blob(&token, id).unwrap();
    assert_eq!(bytes, Vec::<u8>::new());
    assert_eq!(filename, "");

    let log = catalog.export_raw_log(&token).unwrap().clone();
    let mut rebuilt = Catalog::new(String::from("pw"), log).unwrap();
    let token2 = rebuilt.login(&String::from("pw")).unwrap();
    assert_eq!(rebuilt.list_tags(&token2).unwrap(), &vec![String::new()]);
    assert_eq!(rebuilt.list_media(&token2).unwrap().len(), 1);
}

#[test]
fn equal_tag_names_still_get_distinct_ids() {
    let (mut catalog, token) = logged_in("pw");
    assert_eq!(catalog.add_tag(&token, String::from("twin")), Ok(0));
    assert_eq!(catalog.add_tag(&token, String::from("twin")), Ok(1));
    assert_eq!(
        catalog.list_tags(&token).unwrap(),
        &vec![String::from("twin"), String::from("twin")]
    );
}

#[test]
fn tokens_from_an_earlier_process_are_invalid() {
    let (mut catalog, token) = logged_in("pw");
    catalog.add_tag(&token, String::from("t")).unwrap();
    let log = catalog.export_raw_log(&token).unwrap().clone();
    let rebuilt = Catalog::new(String::from("pw"), log).unwrap();
    assert!(!rebuilt.validate(&token));
}
