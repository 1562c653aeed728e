use nymx_mail::digest::ripemd160_bytes;
use nymx_mail::tokens::{
    filename_from_indices, generate_file_tag, generate_random_filename, tag_from_indices,
};

#[test]
fn ripemd160_known_vectors() {
    assert_eq!(ripemd160_bytes(b""), "9c1185a5c5e9fc54612808977ee8f548b2258d31");
    assert_eq!(ripemd160_bytes(b"abc"), "8eb208f7e05d987a9b044a8e98c6b087f15a0bfc");
    assert_eq!(
        ripemd160_bytes(b"message digest"),
        "5d0689ef49d2fae572b881b123a85ffa21595f36"
    );
}

#[test]
fn fingerprint_is_lowercase_hex() {
    let h = ripemd160_bytes(b"hello");
    assert_eq!(h.len(), 40);
    assert_eq!(ripemd160_bytes(&[0u8; 100_000]).len(), 40);
    assert!(h.chars().all(|c| c.is_ascii_digit() || ('a'..='f').contains(&c)));
}

#[test]
fn tag_from_chosen_indices() {
    assert_eq!(tag_from_indices(&[0, 25, 26, 51, 52, 61]), "AZaz09");
    assert_eq!(tag_from_indices(&[]), "");
}

#[test]
fn filename_from_chosen_indices() {
    assert_eq!(filename_from_indices(&[0, 25, 26, 35]), "az09.txt");
    assert_eq!(filename_from_indices(&[]), ".txt");
}

#[test]
fn generated_tag_shape() {
    let t = generate_file_tag();
    assert_eq!(t.len(), 22);
    assert!(t.chars().all(|c| c.is_ascii_alphanumeric()));
}

#[test]
fn generated_filename_shape() {
    let n = generate_random_filename();
    assert_eq!(n.len(), 16);
    assert!(n.ends_with(".txt"));
    assert!(n[..12].chars().all(|c| c.is_ascii_lowercase() || c.is_ascii_digit()));
}
