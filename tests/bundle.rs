use workflow_engine::bundle::{Bundle, BundleError, Location, Manifest, Resolved};

#[test]
fn bundle_validation() {
    let manifest = Manifest::new(vec![
        Location::Bundled("1.thing".into()),
        Location::Bundled("2.thing".into()),
    ]);
    assert!(Bundle::new(manifest.clone(), vec![("1.thing".into(), vec![1])]).is_ok());

    assert_eq!(
        Bundle::new(manifest, vec![("3.thing".into(), vec![3])]),
        Err(BundleError::BundledPathNotInManifest("3.thing".into()))
    );
}

#[test]
fn first_unlisted_path_is_reported() {
    let manifest = Manifest::new(vec![Location::Bundled("a".into()), Location::Path("b".into())]);
    let resources = vec![("a".into(), vec![1]), ("b".into(), vec![2]), ("c".into(), vec![3])];
    assert_eq!(Bundle::new(manifest, resources), Err(BundleError::BundledPathNotInManifest("b".into())));
}

#[test]
fn later_resource_with_same_path_wins() {
    let manifest = Manifest::new(vec![Location::Bundled("a".into()), Location::Bundled("b".into())]);
    let resources = vec![("a".into(), vec![1]), ("b".into(), vec![2]), ("a".into(), vec![3])];
    let bundle = Bundle::new(manifest.clone(), resources).unwrap();
    assert_eq!(bundle.manifest(), &manifest);
    assert_eq!(bundle.bundled_resources().len(), 2);
    assert_eq!(bundle.bundled_resource(&"a".into()), Some(vec![3]));
    assert_eq!(bundle.bundled_resource(&"b".into()), Some(vec![2]));
    assert_eq!(bundle.bundled_resource(&"c".into()), None);
}

#[test]
fn resolve_each_kind_of_location() {
    let manifest = Manifest::new(vec![
        Location::Bundled("a".into()),
        Location::Bundled("missing".into()),
        Location::Path("/tmp/x".into()),
        Location::Url("https://example.org/x".into()),
    ]);
    let bundle = Bundle::new(manifest, vec![("a".into(), vec![7, 8])]).unwrap();
    assert_eq!(bundle.resolve(&Location::Bundled("a".into())), Ok(Resolved::Bytes(vec![7, 8])));
    assert_eq!(
        bundle.resolve(&Location::Bundled("missing".into())),
        Err(BundleError::BundledResourceMissing("missing".into()))
    );
    assert_eq!(bundle.resolve(&Location::Path("/tmp/x".into())), Ok(Resolved::LocalPath("/tmp/x".into())));
    assert_eq!(
        bundle.resolve(&Location::Url("https://example.org/x".into())),
        Ok(Resolved::RemoteUrl("https://example.org/x".into()))
    );
}

#[test]
fn empty_bundle_is_valid() {
    let bundle = Bundle::new(Manifest::new(vec![]), vec![]).unwrap();
    assert!(bundle.bundled_resources().is_empty());
}

#[test]
fn encode_then_decode_gives_bundle_back() {
    let manifest = Manifest::new(vec![
        Location::Bundled("1.thing".into()),
        Location::Path("/x".into()),
        Location::Url("https://y".into()),
    ]);
    let bundle = Bundle::new(manifest, vec![("1.thing".into(), vec![1, 2, 3])]).unwrap();
    let bytes = bundle.encode().unwrap();
    assert_eq!(Bundle::decode(&bytes), Ok(bundle));
}

#[test]
fn encoding_layout_is_length_prefixed() {
    let manifest = Manifest::new(vec![Location::Bundled("a".into())]);
    let bundle = Bundle::new(manifest, vec![("a".into(), vec![9])]).unwrap();
    let bytes = bundle.encode().unwrap();
    let mut expected = Vec::new();
    expected.extend_from_slice(&1u64.to_le_bytes());
    expected.push(0);
    expected.extend_from_slice(&1u64.to_le_bytes());
    expected.push(b'a');
    expected.extend_from_slice(&1u64.to_le_bytes());
    expected.extend_from_slice(&1u64.to_le_bytes());
    expected.push(b'a');
    expected.extend_from_slice(&1u64.to_le_bytes());
    expected.push(9);
    assert_eq!(bytes, expected);
}

#[test]
fn decode_rejects_malformed_bytes() {
    let bundle = Bundle::new(Manifest::new(vec![Location::Bundled("a".into())]), vec![("a".into(), vec![9])]).unwrap();
    let bytes = bundle.encode().unwrap();
    assert_eq!(Bundle::decode(&bytes[..bytes.len() - 1]), Err(BundleError::Malformed));
    let mut longer = bytes.clone();
    longer.push(0);
    assert_eq!(Bundle::decode(&longer), Err(BundleError::Malformed));
    let mut bad_tag = bytes.clone();
    bad_tag[8] = 7;
    assert_eq!(Bundle::decode(&bad_tag), Err(BundleError::Malformed));
    assert_eq!(Bundle::decode(&[]), Err(BundleError::Malformed));
    // The same resource path twice.
    let mut dup = Vec::new();
    dup.extend_from_slice(&0u64.to_le_bytes());
    dup.extend_from_slice(&2u64.to_le_bytes());
    for _ in 0..2 {
        dup.extend_from_slice(&1u64.to_le_bytes());
        dup.push(b'a');
        dup.extend_from_slice(&0u64.to_le_bytes());
    }
    assert_eq!(Bundle::decode(&dup), Err(BundleError::Malformed));
    dup.truncate(8 + 8 + 17);
    dup[8] = 1;
    assert!(Bundle::decode(&dup).is_ok());
}
