use gtk_icon_cache::icon_name_hash;

#[test]
fn test_icon_name_hash() {
    assert_eq!(icon_name_hash("deepin-deb-installer"), 1927089920);
}

#[test]
fn hash_is_deterministic() {
    assert_eq!(
        icon_name_hash("deepin-deb-installer"),
        icon_name_hash("deepin-deb-installer")
    );
    assert_eq!(icon_name_hash("web-browser"), icon_name_hash("web-browser"));
    assert_eq!(icon_name_hash("web-browser"), 2769241519);
}

#[test]
fn hash_of_empty_name_is_zero() {
    assert_eq!(icon_name_hash(""), 0);
}

#[test]
fn hash_known_values() {
    // h("a") = 97; h("ab") = 97 * 31 + 98 = 3105.
    assert_eq!(icon_name_hash("a"), 97);
    assert_eq!(icon_name_hash("ab"), 3105);
}

#[test]
fn hash_collides_in_twelve_buckets() {
    assert_eq!(
        icon_name_hash("firefox") % 12,
        icon_name_hash("image-generic") % 12
    );
}
