use docker_registry::digest::{
    check_blob, ContentDigest, DigestAlgorithm, DigestError,
};
use docker_registry::manifest::{
    ConfigBlob, Descriptor, History, Label, Manifest, ManifestEntry, ManifestError, ManifestList,
    ManifestSchema1Signed, ManifestSchema2, ManifestSchema2Spec, Platform,
};
use docker_registry::mediatypes::{
    default_accepted_types, match_content_type, ManifestKind, MediaTypes,
};
use docker_registry::codec::Compression;
use docker_registry::reference::{Reference, ReferenceError, Version};
use docker_registry::text::{ascii_bytes, join, position, to_decimal, to_hex, to_lower, is_all_hex};
use sha2::Digest;
use std::collections::HashMap;

fn b(s: &str) -> Vec<u8> {
    s.as_bytes().to_vec()
}

fn parse(s: &str) -> Result<Reference, ReferenceError> {
    Reference::parse(&b(s))
}

fn parts(r: &Reference) -> (String, String, String) {
    let version = match r.version() {
        Version::Tag(t) => format!(":{}", String::from_utf8(t.clone()).unwrap()),
        Version::Digest(d) => format!("@{}", String::from_utf8(d.render()).unwrap()),
    };
    (
        String::from_utf8(r.registry().clone()).unwrap(),
        String::from_utf8(r.repository().clone()).unwrap(),
        version,
    )
}

fn triple(a: &str, b: &str, c: &str) -> (String, String, String) {
    (a.to_string(), b.to_string(), c.to_string())
}

#[test]
fn reference_with_host_repository_and_tag() {
    let r = parse("quay.io/steveej/cincinnati-test-labels:0.0.0").unwrap();
    assert_eq!(r.registry(), &b("quay.io"));
    assert_eq!(r.repository(), &b("steveej/cincinnati-test-labels"));
    match r.version() {
        Version::Tag(t) => assert_eq!(t, &b("0.0.0")),
        _ => panic!("expected a tag"),
    }
    assert_eq!(r.render(), b("quay.io/steveej/cincinnati-test-labels:0.0.0"));
}

#[test]
fn reference_defaults() {
    assert_eq!(
        parts(&parse("ubuntu").unwrap()),
        triple("registry.hub.docker.com", "library/ubuntu", ":latest")
    );
    assert_eq!(
        parts(&parse("ubuntu:18.04").unwrap()),
        triple("registry.hub.docker.com", "library/ubuntu", ":18.04")
    );
    assert_eq!(
        parts(&parse("coreos/etcd").unwrap()),
        triple("registry.hub.docker.com", "coreos/etcd", ":latest")
    );
    assert_eq!(
        parts(&parse("quay.io/coreos/etcd").unwrap()),
        triple("quay.io", "coreos/etcd", ":latest")
    );
    assert_eq!(
        parts(&parse("registry.hub.docker.com/ubuntu").unwrap()),
        triple("registry.hub.docker.com", "library/ubuntu", ":latest")
    );
    assert_eq!(parts(&parse("quay.io/etcd").unwrap()), triple("quay.io", "etcd", ":latest"));
}

#[test]
fn reference_hosts() {
    assert_eq!(
        parts(&parse("localhost/app:1").unwrap()),
        triple("localhost", "app", ":1")
    );
    assert_eq!(
        parts(&parse("localhost:5000/team/app").unwrap()),
        triple("localhost:5000", "team/app", ":latest")
    );
    assert_eq!(
        parts(&parse("reg:5000/app:v2").unwrap()),
        triple("reg:5000", "app", ":v2")
    );
    assert_eq!(
        parts(&parse("myhost/app").unwrap()),
        triple("registry.hub.docker.com", "myhost/app", ":latest")
    );
    assert_eq!(
        parts(&parse("localhost:5000").unwrap()),
        triple("registry.hub.docker.com", "library/localhost", ":5000")
    );
}

#[test]
fn reference_with_digest() {
    let hex = "d3799f6eb50a3db27e2a747dd0b9a559d1ad9d117ff569c1b40026a0839e8db4";
    let r = parse(&format!("quay.io/openshift/release@sha256:{}", hex)).unwrap();
    assert_eq!(r.registry(), &b("quay.io"));
    assert_eq!(r.repository(), &b("openshift/release"));
    match r.version() {
        Version::Digest(d) => {
            assert_eq!(d.algorithm(), DigestAlgorithm::Sha256);
            assert_eq!(d.hex(), &b(hex));
        }
        _ => panic!("expected a digest"),
    }
    let upper = parse(&format!("quay.io/a/b@sha256:{}", hex.to_uppercase())).unwrap();
    assert_eq!(parts(&upper).2, format!("@sha256:{}", hex));
}

#[test]
fn reference_rejections() {
    assert_eq!(parse("").unwrap_err(), ReferenceError::EmptyPath);
    assert_eq!(parse("quay.io/").unwrap_err(), ReferenceError::EmptyPath);
    assert_eq!(parse(":tag").unwrap_err(), ReferenceError::EmptyPath);
    assert_eq!(parse("quay.io/a//b").unwrap_err(), ReferenceError::DoubleSlash);
    assert_eq!(parse("a//b:1").unwrap_err(), ReferenceError::DoubleSlash);
    assert_eq!(parse("repo:").unwrap_err(), ReferenceError::InvalidTag);
    assert_eq!(parse("repo:bad tag").unwrap_err(), ReferenceError::InvalidTag);
    assert_eq!(parse("repo:t\u{e9}").unwrap_err(), ReferenceError::InvalidTag);
    assert_eq!(parse(&format!("repo:{}", "a".repeat(129))).unwrap_err(), ReferenceError::InvalidTag);
    assert!(parse(&format!("repo:{}", "a".repeat(128))).is_ok());
    assert_eq!(
        parse("repo@sha256").unwrap_err(),
        ReferenceError::InvalidDigest(DigestError::MissingSeparator)
    );
    assert_eq!(
        parse("repo@md5:00").unwrap_err(),
        ReferenceError::InvalidDigest(DigestError::UnknownAlgorithm)
    );
    assert_eq!(
        parse("repo@sha256:").unwrap_err(),
        ReferenceError::InvalidDigest(DigestError::EmptyHex)
    );
    assert_eq!(
        parse("repo@sha256:xyz").unwrap_err(),
        ReferenceError::InvalidDigest(DigestError::NotHex)
    );
}

#[test]
fn reference_reads_back_what_it_writes() {
    let inputs = [
        "ubuntu",
        "ubuntu:18.04",
        "coreos/etcd",
        "quay.io/coreos/etcd:v3",
        "localhost:5000/a/b/c:1.2.3",
        "localhost/x",
        "quay.io/steveej/cincinnati-test-labels:0.0.0",
        "busybox@sha256:ABCDEF0123",
        "a:b:c",
        "/odd",
        "reg.example.com:443/ns/app@sha512:00ff",
    ];
    for input in inputs {
        let first = parse(input).unwrap();
        let second = Reference::parse(&first.render()).unwrap();
        assert_eq!(parts(&first), parts(&second), "{}", input);
        assert_eq!(first.render(), second.render(), "{}", input);
    }
}

#[test]
fn digest_parsing() {
    let d = ContentDigest::try_new(&b("sha256:00AAff")).unwrap();
    assert_eq!(d.algorithm(), DigestAlgorithm::Sha256);
    assert_eq!(d.hex(), &b("00aaff"));
    assert_eq!(d.render(), b("sha256:00aaff"));
    let d = ContentDigest::try_new(&b("sha512:1")).unwrap();
    assert_eq!(d.algorithm(), DigestAlgorithm::Sha512);
    assert_eq!(ContentDigest::try_new(&b("sha256")).unwrap_err(), DigestError::MissingSeparator);
    assert_eq!(ContentDigest::try_new(&b("")).unwrap_err(), DigestError::MissingSeparator);
    assert_eq!(ContentDigest::try_new(&b("sha1:00")).unwrap_err(), DigestError::UnknownAlgorithm);
    assert_eq!(ContentDigest::try_new(&b(":00")).unwrap_err(), DigestError::UnknownAlgorithm);
    assert_eq!(ContentDigest::try_new(&b("SHA256:00")).unwrap_err(), DigestError::UnknownAlgorithm);
    assert_eq!(ContentDigest::try_new(&b("sha256:")).unwrap_err(), DigestError::EmptyHex);
    assert_eq!(ContentDigest::try_new(&b("sha256:0g")).unwrap_err(), DigestError::NotHex);
    assert_eq!(ContentDigest::try_new(&b("sha256:00:11")).unwrap_err(), DigestError::NotHex);
    assert_eq!(DigestAlgorithm::Sha256.name(), b("sha256"));
    assert_eq!(DigestAlgorithm::named(&b("sha512")), Some(DigestAlgorithm::Sha512));
    assert_eq!(DigestAlgorithm::named(&b("sha384")), None);
}

#[test]
fn digest_of_known_bytes() {
    assert_eq!(
        DigestAlgorithm::Sha256.hash(&b("hello")),
        b("2cf24dba5fb0a30e26e83b2ac5b9e29e1b161e5c1fa7425e73043362938b9824")
    );
    assert_eq!(
        DigestAlgorithm::Sha256.hash(&Vec::new()),
        b("e3b0c44298fc1c149afbf4c8996fb92427ae41e4649b934ca495991b7852b855")
    );
    assert_eq!(
        DigestAlgorithm::Sha512.hash(&b("abc")),
        b("ddaf35a193617abacc417349ae20413112e6fa4e89a97ea20a9eeee64b55d39a2192992a274fc1a836ba3c23a3feebbd454d4423643ce80e2a9ac94fa54ca49f")
    );
}

#[test]
fn digest_verification_ignores_the_case_of_the_expected_hex() {
    let upper = "2CF24DBA5FB0A30E26E83B2AC5B9E29E1B161E5C1FA7425E73043362938B9824";
    let d = ContentDigest::try_new(&b(&format!("sha256:{}", upper))).unwrap();
    assert!(d.try_verify(&b("hello")).is_ok());
    assert!(d.try_verify(&b("hello ")).is_err());
}

#[test]
fn get_blobs_succeeds_with_consistent_layer() {
    let blob = b"hello";
    let digest = format!("sha256:{:x}", sha2::Sha256::digest(blob));
    let digest = ContentDigest::try_new(&b(&digest)).unwrap();
    let res = check_blob(blob.to_vec(), &digest).unwrap();
    assert_eq!(blob, res.as_slice());
}

#[test]
fn get_blobs_fails_with_inconsistent_layer() {
    let blob = b"hello";
    let blob2 = b"hello2";
    let digest = format!("sha256:{:x}", sha2::Sha256::digest(blob));
    let digest = ContentDigest::try_new(&b(&digest)).unwrap();
    match check_blob(blob2.to_vec(), &digest) {
        Ok(_) => panic!("Expected error"),
        Err(e) => {
            assert_eq!(e.message(), "content digest error");
            assert_eq!(e.expected, b(&format!("{:x}", sha2::Sha256::digest(blob))));
            assert_eq!(e.got, b(&format!("{:x}", sha2::Sha256::digest(blob2))));
        }
    }
}

#[test]
fn blob_under_the_digest_of_other_bytes_is_refused() {
    let digest = format!("sha256:{:x}", sha2::Sha256::digest(b"hello2"));
    let digest = ContentDigest::try_new(&b(&digest)).unwrap();
    let e = check_blob(b("hello"), &digest).unwrap_err();
    assert_eq!(e.message(), "content digest error");
}

#[test]
fn text_helpers() {
    assert_eq!(to_hex(&vec![0x00, 0x0f, 0xa5, 0xff]), b("000fa5ff"));
    assert_eq!(to_hex(&Vec::new()), b(""));
    assert_eq!(to_lower(&b("AbC-09_Zz")), b("abc-09_zz"));
    assert_eq!(to_lower(&vec![0x40, 0x5b, 0xc0]), vec![0x40, 0x5b, 0xc0]);
    assert!(is_all_hex(&b("0123456789abcdefABCDEF")));
    assert!(!is_all_hex(&b("0x10")));
    assert!(is_all_hex(&b("")));
    assert_eq!(to_decimal(0), b("0"));
    assert_eq!(to_decimal(7), b("7"));
    assert_eq!(to_decimal(10), b("10"));
    assert_eq!(to_decimal(1234567890), b("1234567890"));
    assert_eq!(to_decimal(u32::MAX), b("4294967295"));
    assert_eq!(position(&b("a:b:c"), b':', 0), 1);
    assert_eq!(position(&b("a:b:c"), b':', 2), 3);
    assert_eq!(position(&b("a:b:c"), b'/', 0), 5);
    assert_eq!(join(&b("ab"), &b("cd")), b("abcd"));
    assert_eq!(ascii_bytes("a/b"), b("a/b"));
}

fn layer(digest: &str) -> Descriptor {
    Descriptor {
        media_type: "application/vnd.docker.image.rootfs.diff.tar.gzip".to_string(),
        size: 1,
        digest: digest.to_string(),
    }
}

const RELEASE_LAYERS: [&str; 5] = [
    "sha256:9391a94f7498d07a595f560d60350d428b1259d622e19beee61a2363edc4eb94",
    "sha256:d4fd2952f1904c1ca0c8c3201d3ac3743f023934600c634489f0f43d48e5585d",
    "sha256:2a7baf2a728185c5679ed1736467142236b271b93c9741cbd7fe7f1c611f794b",
    "sha256:38170656dfefb3fbc6c7d7b07a1ab128227144f2eaa16eb8c877fe6a0b755670",
    "sha256:05db9bb68935b217cc844ab63e11ca816adbdd8a4aeeb4066c4c8d1125817f81",
];

fn deserialize_manifest_v2s2_config() -> Manifest {
    let manifest_spec = ManifestSchema2Spec {
        schema_version: 2,
        media_type: "application/vnd.docker.distribution.manifest.v2+json".to_string(),
        config: Descriptor {
            media_type: "application/vnd.docker.container.image.v1+json".to_string(),
            size: 1,
            digest: "sha256:0000".to_string(),
        },
        layers: RELEASE_LAYERS.iter().map(|d| layer(d)).collect(),
    };
    let config_blob = ConfigBlob {
        architecture: "amd64".to_string(),
        labels: Some(vec![
            Label { key: "io.openshift.release".to_string(), value: "4.1.0-rc.9".to_string() },
            Label {
                key: "io.openshift.release.base-image-digest".to_string(),
                value: "sha256:d3799f6eb50a3db27e2a747dd0b9a559d1ad9d117ff569c1b40026a0839e8db4"
                    .to_string(),
            },
        ]),
    };
    Manifest::S2(ManifestSchema2 { manifest_spec, config_blob: Some(config_blob) })
}

fn as_map(labels: Option<Vec<Label>>) -> HashMap<String, String> {
    labels.unwrap_or_default().into_iter().map(|l| (l.key, l.value)).collect()
}

#[test]
fn test_deserialize_manifest_v2s2_config() {
    let config = deserialize_manifest_v2s2_config();

    match config {
        Manifest::S2(s) => {
            assert_eq!(
                HashMap::from([
                    ("io.openshift.release".to_string(), "4.1.0-rc.9".to_string()),
                    (
                        "io.openshift.release.base-image-digest".to_string(),
                        "sha256:d3799f6eb50a3db27e2a747dd0b9a559d1ad9d117ff569c1b40026a0839e8db4"
                            .to_string()
                    )
                ]),
                as_map(s.labels().unwrap())
            );
        }
        _ => {
            panic!("not the correct manifest type");
        }
    }
}

#[test]
fn test_manifest_v2s2() {
    let manifest = deserialize_manifest_v2s2_config();

    assert_eq!("amd64", manifest.architectures().unwrap()[0]);
    assert_eq!(
        vec![
            "sha256:9391a94f7498d07a595f560d60350d428b1259d622e19beee61a2363edc4eb94",
            "sha256:d4fd2952f1904c1ca0c8c3201d3ac3743f023934600c634489f0f43d48e5585d",
            "sha256:2a7baf2a728185c5679ed1736467142236b271b93c9741cbd7fe7f1c611f794b",
            "sha256:38170656dfefb3fbc6c7d7b07a1ab128227144f2eaa16eb8c877fe6a0b755670",
            "sha256:05db9bb68935b217cc844ab63e11ca816adbdd8a4aeeb4066c4c8d1125817f81",
        ],
        manifest.layers_digests(Some("amd64")).unwrap()
    );
    assert_eq!(manifest.architectures().unwrap().len(), 1);
    assert_eq!(manifest.layers_digests(None).unwrap().len(), 5);
}

#[test]
fn test_labels_manifest_v2s1_signed() {
    let plain = ManifestSchema1Signed {
        schema_version: 1,
        name: "library/x".to_string(),
        tag: "latest".to_string(),
        architecture: "amd64".to_string(),
        fs_layers: vec!["sha256:aa".to_string()],
        history: vec![History { v1_compatibility: "{}".to_string(), labels: None }],
    };
    assert!(plain.get_labels(0).is_none());

    let manif = ManifestSchema1Signed {
        schema_version: 1,
        name: "steveej/cincinnati-test-labels".to_string(),
        tag: "dkregistry-test".to_string(),
        architecture: "amd64".to_string(),
        fs_layers: vec!["sha256:aa".to_string(), "sha256:bb".to_string()],
        history: vec![
            History {
                v1_compatibility: "{\"config\":{\"Labels\":{\"channel\":\"beta\"}}}".to_string(),
                labels: Some(vec![Label { key: "channel".to_string(), value: "beta".to_string() }]),
            },
            History { v1_compatibility: "{}".to_string(), labels: None },
        ],
    };
    let labels_0 = as_map(Some(manif.get_labels(0).expect("Missing labels")));
    let mut expected_labels_0: HashMap<String, String> = HashMap::new();
    expected_labels_0.insert("channel".into(), "beta".into());
    assert_eq!(expected_labels_0, labels_0);
    assert!(manif.get_labels(1).is_none());
    assert!(manif.get_labels(2).is_none());
}

#[test]
fn schema2_without_config_fails_loudly() {
    let manifest = match deserialize_manifest_v2s2_config() {
        Manifest::S2(mut s) => {
            s.config_blob = None;
            Manifest::S2(s)
        }
        other => other,
    };
    assert_eq!(manifest.architectures().unwrap_err(), ManifestError::ConfigMissing);
    assert_eq!(manifest.labels(0).unwrap_err(), ManifestError::ConfigMissing);
    assert_eq!(manifest.layers_digests(None).unwrap().len(), 5);
    assert_eq!(manifest.layers(None).unwrap().len(), 5);
}

#[test]
fn schema1_layers_come_base_first() {
    let manifest = Manifest::S1Signed(ManifestSchema1Signed {
        schema_version: 1,
        name: "n".to_string(),
        tag: "t".to_string(),
        architecture: "arm64".to_string(),
        fs_layers: vec!["sha256:top".to_string(), "sha256:mid".to_string(), "sha256:base".to_string()],
        history: Vec::new(),
    });
    assert_eq!(
        manifest.layers_digests(None).unwrap(),
        vec!["sha256:base", "sha256:mid", "sha256:top"]
    );
    let layers = manifest.layers(None).unwrap();
    assert_eq!(layers[0].digest, "sha256:base");
    assert_eq!(layers[0].media_type, "application/vnd.docker.image.rootfs.diff.tar.gzip");
    assert_eq!(manifest.architectures().unwrap(), vec!["arm64"]);
    assert!(manifest.labels(0).unwrap().is_none());
}

fn child(arch: &str, digest: &str) -> ManifestEntry {
    ManifestEntry {
        media_type: "application/vnd.docker.distribution.manifest.v2+json".to_string(),
        size: 7,
        digest: digest.to_string(),
        platform: Platform { architecture: arch.to_string(), os: "linux".to_string() },
    }
}

fn sample_list() -> Manifest {
    Manifest::ML(ManifestList {
        schema_version: 2,
        media_type: "application/vnd.docker.distribution.manifest.list.v2+json".to_string(),
        manifests: vec![
            child("ppc64le", "sha256:01"),
            child("amd64", "sha256:02"),
            child("s390x", "sha256:03"),
            child("amd64", "sha256:04"),
        ],
    })
}

#[test]
fn manifest_list_architectures_keep_wire_order() {
    assert_eq!(
        sample_list().architectures().unwrap(),
        vec!["ppc64le", "amd64", "s390x", "amd64"]
    );
}

#[test]
fn manifest_list_selects_the_first_matching_child() {
    let list = sample_list();
    assert_eq!(list.layers_digests(Some("amd64")).unwrap(), vec!["sha256:02"]);
    assert_eq!(list.layers_digests(Some("s390x")).unwrap(), vec!["sha256:03"]);
    assert_eq!(list.layers_digests(None).unwrap(), vec!["sha256:01"]);
    let layers = list.layers(Some("amd64")).unwrap();
    assert_eq!(layers.len(), 1);
    assert_eq!(layers[0].media_type, "application/vnd.docker.distribution.manifest.v2+json");
    assert_eq!(list.layers(Some("riscv64")).unwrap_err(), ManifestError::NoMatchingArchitecture);
    assert_eq!(
        list.layers_digests(Some("riscv64")).unwrap_err(),
        ManifestError::NoMatchingArchitecture
    );
    assert!(list.labels(0).unwrap().is_none());
    let empty = Manifest::ML(ManifestList {
        schema_version: 2,
        media_type: String::new(),
        manifests: Vec::new(),
    });
    assert_eq!(empty.layers(None).unwrap_err(), ManifestError::NoMatchingArchitecture);
    assert!(empty.architectures().unwrap().is_empty());
}

#[test]
fn layers_and_digests_correspond() {
    for manifest in [deserialize_manifest_v2s2_config(), sample_list()] {
        for arch in [None, Some("amd64")] {
            let layers = manifest.layers(arch).unwrap();
            let digests = manifest.layers_digests(arch).unwrap();
            assert_eq!(layers.len(), digests.len());
            for (l, d) in layers.iter().zip(digests.iter()) {
                assert_eq!(&l.digest, d);
            }
        }
    }
}

#[test]
fn oci_image_manifest_is_read_as_schema2() {
    let manifest = match deserialize_manifest_v2s2_config() {
        Manifest::S2(s) => Manifest::OciImage(s),
        other => other,
    };
    assert_eq!(manifest.architectures().unwrap(), vec!["amd64"]);
    assert_eq!(manifest.layers_digests(None).unwrap().len(), 5);
    assert_eq!(as_map(manifest.labels(3).unwrap()).len(), 2);
}

#[test]
fn media_types_and_their_texts() {
    let all = [
        (MediaTypes::ManifestV2S1, "application/vnd.docker.distribution.manifest.v1+json"),
        (MediaTypes::ManifestV2S1Signed, "application/vnd.docker.distribution.manifest.v1+prettyjws"),
        (MediaTypes::ManifestV2S2, "application/vnd.docker.distribution.manifest.v2+json"),
        (MediaTypes::OciImageManifest, "application/vnd.oci.image.manifest.v1+json"),
        (MediaTypes::ManifestList, "application/vnd.docker.distribution.manifest.list.v2+json"),
        (MediaTypes::OciImageIndex, "application/vnd.oci.image.index.v1+json"),
        (MediaTypes::ImageLayerTgz, "application/vnd.docker.image.rootfs.diff.tar.gzip"),
        (MediaTypes::ImageLayerZstd, "application/vnd.oci.image.layer.v1.tar+zstd"),
        (MediaTypes::ImageLayerTar, "application/vnd.oci.image.layer.v1.tar"),
        (MediaTypes::ForeignLayerTgz, "application/vnd.docker.image.rootfs.foreign.diff.tar.gzip"),
        (MediaTypes::ContainerConfigV1, "application/vnd.docker.container.image.v1+json"),
    ];
    for (m, text) in all {
        assert_eq!(m.to_bytes(), b(text));
        assert_eq!(MediaTypes::from_bytes(&b(text)), Some(m));
    }
    assert_eq!(MediaTypes::from_bytes(&b("application/json")), None);
    assert_eq!(MediaTypes::from_bytes(&b("")), None);
}

#[test]
fn media_types_classify() {
    assert_eq!(MediaTypes::ImageLayerTgz.compression(), Some(Compression::Gzip));
    assert_eq!(MediaTypes::ForeignLayerTgz.compression(), Some(Compression::Gzip));
    assert_eq!(MediaTypes::ImageLayerZstd.compression(), Some(Compression::Zstd));
    assert_eq!(MediaTypes::ImageLayerTar.compression(), Some(Compression::Identity));
    assert_eq!(MediaTypes::ManifestV2S2.compression(), None);
    assert_eq!(MediaTypes::ManifestV2S1Signed.kind(), Some(ManifestKind::Single));
    assert_eq!(MediaTypes::ManifestV2S2.kind(), Some(ManifestKind::Single));
    assert_eq!(MediaTypes::OciImageManifest.kind(), Some(ManifestKind::Single));
    assert_eq!(MediaTypes::ManifestList.kind(), Some(ManifestKind::List));
    assert_eq!(MediaTypes::OciImageIndex.kind(), Some(ManifestKind::List));
    assert_eq!(MediaTypes::ContainerConfigV1.kind(), None);
    assert_eq!(MediaTypes::ImageLayerTgz.kind(), None);
}

#[test]
fn content_type_is_matched_against_what_is_accepted() {
    let accepted = default_accepted_types();
    assert_eq!(
        accepted,
        vec![
            MediaTypes::ManifestV2S1Signed,
            MediaTypes::ManifestV2S2,
            MediaTypes::OciImageManifest,
            MediaTypes::ManifestList,
            MediaTypes::OciImageIndex,
        ]
    );
    let s1 = MediaTypes::ManifestV2S1Signed.to_bytes();
    assert_eq!(match_content_type(&s1, &accepted), Some(MediaTypes::ManifestV2S1Signed));
    assert_eq!(match_content_type(&s1, &vec![MediaTypes::ManifestV2S2]), None);
    assert_eq!(match_content_type(&s1, &Vec::new()), None);
    assert_eq!(match_content_type(&MediaTypes::ManifestV2S1.to_bytes(), &accepted), None);
    assert_eq!(match_content_type(&b("text/html"), &accepted), None);
}
