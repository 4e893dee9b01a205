use oration::author::get_author;
use oration::comments::authorize_edit;
use oration::errors::ErrorKind;
use oration::hash::gen_hash;
use oration::index;

#[test]
fn hash_of_nothing_is_empty() {
    assert_eq!(gen_hash(&None, &None, &None, None), "");
}

#[test]
fn hash_of_ip_alone_is_its_digest() {
    // with no profile fields the IP text alone is hashed; an empty IP is the
    // digest of the empty string
    let d = gen_hash(&None, &None, &None, Some(""));
    assert_eq!(d, "d14a028c2a3a2bc9476102bb288234c415a2b01f828ea62ac5b3e42f");
    assert_eq!(d.len(), 56);
}

#[test]
fn hash_is_deterministic() {
    let a = gen_hash(
        &Some("Ann".to_owned()),
        &Some("ann@example.com".to_owned()),
        &None,
        Some("1.2.3.4"),
    );
    let b = gen_hash(
        &Some("Ann".to_owned()),
        &Some("ann@example.com".to_owned()),
        &None,
        Some("1.2.3.4"),
    );
    assert_eq!(a, b);
    let c = gen_hash(
        &Some("Bob".to_owned()),
        &Some("ann@example.com".to_owned()),
        &None,
        Some("1.2.3.4"),
    );
    assert_ne!(a, c);
}

#[test]
fn hash_ignores_ip_when_profile_fields_exist() {
    let a = gen_hash(&Some("Ann".to_owned()), &None, &None, Some("1.2.3.4"));
    let b = gen_hash(&Some("Ann".to_owned()), &None, &None, Some("5.6.7.8"));
    assert_eq!(a, b);
}

#[test]
fn hash_joins_present_fields_with_the_separator() {
    // author "a" and website "c" are joined with 'b', so they hash like a
    // single author field "abc"
    let joined = gen_hash(&Some("a".to_owned()), &None, &Some("c".to_owned()), None);
    let single = gen_hash(&Some("abc".to_owned()), &None, &None, None);
    assert_eq!(joined, single);
}

#[test]
fn author_resolution_prefers_the_name() {
    let r = get_author(
        &Some("Ann".to_owned()),
        &Some("ann@example.com".to_owned()),
        &Some("https://example.com".to_owned()),
    );
    assert_eq!(r.as_deref(), Some("Ann"));
}

#[test]
fn author_resolution_obfuscates_the_email() {
    let r = get_author(&None, &Some("user@mail.example.com".to_owned()), &None);
    assert_eq!(r.as_deref(), Some("user@****.example.com"));
    let no_dot = get_author(&None, &Some("user@localhost".to_owned()), &None);
    assert_eq!(no_dot.as_deref(), Some("user@****"));
    let no_at = get_author(&None, &Some("plainname".to_owned()), &None);
    assert_eq!(no_at.as_deref(), Some("plainname@****"));
}

#[test]
fn author_resolution_falls_back_to_website_then_nothing() {
    let r = get_author(&None, &None, &Some("https://example.com".to_owned()));
    assert_eq!(r.as_deref(), Some("https://example.com"));
    assert_eq!(get_author(&None, &None, &None), None);
}

#[test]
fn edit_window_requires_hash_and_time() {
    assert_eq!(authorize_edit("h", "h", 100, None, 150, 100), Ok(()));
    assert_eq!(
        authorize_edit("h", "other", 100, None, 150, 100),
        Err(ErrorKind::Unauthorized)
    );
    assert_eq!(
        authorize_edit("h", "h", 100, None, 250, 100),
        Err(ErrorKind::Unauthorized)
    );
    // a later modification stamp reopens the window
    assert_eq!(authorize_edit("h", "h", 100, Some(200), 250, 100), Ok(()));
}

#[test]
fn index_names_the_bundled_page() {
    assert_eq!(index(), "public/index.html");
}

#[test]
fn error_kinds_are_distinct() {
    assert_ne!(ErrorKind::PathCheckFailed, ErrorKind::Unauthorized);
    assert_ne!(ErrorKind::StorageRead, ErrorKind::StorageWrite);
    assert_ne!(ErrorKind::SerializationFailed, ErrorKind::AlreadyVoted);
}
