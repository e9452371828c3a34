use findshlibs::{Avma, Bias, SharedLibraryId, Svma};

const GUID: [u8; 16] = [
    0x00, 0x11, 0x22, 0x33, 0x44, 0x55, 0x66, 0x77, 0x88, 0x99, 0xaa, 0xbb, 0xcc, 0xdd, 0xee,
    0xff,
];

#[test]
fn uuid_formats_as_grouped_lowercase_hex() {
    let id = SharedLibraryId::Uuid(GUID);
    assert_eq!(id.to_hex_bytes(), b"00112233-4455-6677-8899-aabbccddeeff".to_vec());
    assert_eq!(id.as_bytes(), &GUID[..]);
}

#[test]
fn build_id_formats_as_plain_lowercase_hex() {
    let id = SharedLibraryId::GnuBuildId(vec![0xde, 0xad, 0x00, 0x0f]);
    assert_eq!(id.to_hex_bytes(), b"dead000f".to_vec());
    assert_eq!(id.as_bytes(), &[0xde, 0xad, 0x00, 0x0f]);

    let empty = SharedLibraryId::GnuBuildId(Vec::new());
    assert_eq!(empty.to_hex_bytes(), Vec::<u8>::new());
}

#[test]
fn pe_signature_formats_as_padded_timestamp_and_size() {
    let id = SharedLibraryId::PeSignature(0x12ab, 0x1f);
    assert_eq!(id.to_hex_bytes(), b"000012AB1f".to_vec());
    // A PE signature's identity is its two numbers; it has no raw bytes.
    assert_eq!(id.as_bytes(), &[] as &[u8]);

    let id = SharedLibraryId::PeSignature(0xdead_beef, 0);
    assert_eq!(id.to_hex_bytes(), b"DEADBEEF0".to_vec());
}

#[test]
fn pdb_signature_formats_as_grouped_uppercase_hex_with_age() {
    let id = SharedLibraryId::PdbSignature(GUID, 0x2a);
    assert_eq!(id.to_hex_bytes(), b"00112233-4455-6677-8899-AABBCCDDEEFF2a".to_vec());
    assert_eq!(id.as_bytes(), &GUID[..]);
}

#[test]
fn ids_compare_by_raw_value() {
    let a = SharedLibraryId::GnuBuildId(vec![1, 2, 3]);
    let b = SharedLibraryId::GnuBuildId(vec![1, 2, 3]);
    let c = SharedLibraryId::GnuBuildId(vec![1, 2, 4]);
    assert_eq!(a, b);
    assert_ne!(a, c);
    assert_ne!(SharedLibraryId::Uuid(GUID), SharedLibraryId::PdbSignature(GUID, 0));
    assert_eq!(
        SharedLibraryId::PeSignature(1, 2),
        SharedLibraryId::PeSignature(1, 2)
    );
    assert_ne!(
        SharedLibraryId::PeSignature(1, 2),
        SharedLibraryId::PeSignature(1, 3)
    );
}

#[test]
fn addresses_default_to_zero() {
    assert_eq!(Svma::default(), Svma(0));
    assert_eq!(Avma::default(), Avma(0));
    assert_eq!(Bias::default(), Bias(0));
}

#[test]
fn bias_arithmetic_wraps_at_the_pointer_width() {
    assert_eq!(Svma(0).with_bias(Bias(0x7000)), Avma(0x7000));
    assert_eq!(Svma(usize::MAX).with_bias(Bias(2)), Avma(1));
    assert_eq!(Avma(0x7000).without_bias(Bias(0x7000)), Svma(0));
    assert_eq!(Avma(1).without_bias(Bias(2)), Svma(usize::MAX));
    // The round trip across the bias is the identity.
    let stated = Svma(0x1234);
    let bias = Bias(usize::MAX - 0x10);
    assert_eq!(stated.with_bias(bias).without_bias(bias), stated);
}
