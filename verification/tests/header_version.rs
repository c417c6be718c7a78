use kepler_core::block::HeaderVersion;
use kepler_core::ser::{write_u16, Wire};

#[test]
fn serialize_deserialize_header_version() {
    let mut vec1 = Vec::new();
    write_u16(&mut vec1, 1_u16);

    let mut vec2 = Vec::new();
    HeaderVersion(1).write(&mut vec2);

    // A header version is written as a single 16-bit value with nothing around it.
    assert_eq!(vec1, vec2);
    assert_eq!(vec2, vec![0u8, 1u8]);

    // And it can be read back.
    let (version, end) = HeaderVersion::read(&vec2[..], 0).unwrap();
    assert_eq!(version.0, 1);
    assert_eq!(end, 2);
}
