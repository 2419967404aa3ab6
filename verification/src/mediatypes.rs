//! The media types of manifests, layers and configs: a closed enumeration,
//! each with the text that stands for it in `Accept` and `Content-Type`.

use vstd::prelude::*;
use crate::bytes::bytes_eq;
use crate::codec::{compression_of, Compression};
use crate::text::{ascii, ascii_bytes};

verus! {

/// A media type that this library knows.
#[derive(Debug, Clone, Copy, PartialEq, Eq, Structural)]
pub enum MediaTypes {
    /// A schema-1 manifest.
    ManifestV2S1,
    /// A signed schema-1 manifest.
    ManifestV2S1Signed,
    /// A schema-2 manifest.
    ManifestV2S2,
    /// An OCI image manifest.
    OciImageManifest,
    /// A manifest list.
    ManifestList,
    /// An OCI image index.
    OciImageIndex,
    /// A layer as a gzip-compressed tar archive.
    ImageLayerTgz,
    /// A layer as a zstd-compressed tar archive.
    ImageLayerZstd,
    /// A layer as a plain tar archive.
    ImageLayerTar,
    /// A layer kept outside the registry, as a gzip-compressed tar archive.
    ForeignLayerTgz,
    /// The config of a container, in JSON.
    ContainerConfigV1,
}

/// What a manifest of a media type is.
#[derive(Debug, Clone, Copy, PartialEq, Eq, Structural)]
pub enum ManifestKind {
    /// One image: a schema-1, schema-2 or OCI image manifest.
    Single,
    /// A list of images: a manifest list or an OCI image index.
    List,
}

/// The text of a media type, as characters.
pub open spec fn type_text(m: MediaTypes) -> Seq<char> {
    match m {
        MediaTypes::ManifestV2S1 => "application/vnd.docker.distribution.manifest.v1+json"@,
        MediaTypes::ManifestV2S1Signed => "application/vnd.docker.distribution.manifest.v1+prettyjws"@,
        MediaTypes::ManifestV2S2 => "application/vnd.docker.distribution.manifest.v2+json"@,
        MediaTypes::OciImageManifest => "application/vnd.oci.image.manifest.v1+json"@,
        MediaTypes::ManifestList => "application/vnd.docker.distribution.manifest.list.v2+json"@,
        MediaTypes::OciImageIndex => "application/vnd.oci.image.index.v1+json"@,
        MediaTypes::ImageLayerTgz => "application/vnd.docker.image.rootfs.diff.tar.gzip"@,
        MediaTypes::ImageLayerZstd => "application/vnd.oci.image.layer.v1.tar+zstd"@,
        MediaTypes::ImageLayerTar => "application/vnd.oci.image.layer.v1.tar"@,
        MediaTypes::ForeignLayerTgz => "application/vnd.docker.image.rootfs.foreign.diff.tar.gzip"@,
        MediaTypes::ContainerConfigV1 => "application/vnd.docker.container.image.v1+json"@,
    }
}

/// The text of a media type, as bytes.
pub open spec fn type_bytes(m: MediaTypes) -> Seq<u8> {
    ascii(type_text(m))
}

/// The media type that a text stands for, if any.
pub open spec fn type_of(text: Seq<u8>) -> Option<MediaTypes> {
    if text == type_bytes(MediaTypes::ManifestV2S1) {
        Some(MediaTypes::ManifestV2S1)
    } else if text == type_bytes(MediaTypes::ManifestV2S1Signed) {
        Some(MediaTypes::ManifestV2S1Signed)
    } else if text == type_bytes(MediaTypes::ManifestV2S2) {
        Some(MediaTypes::ManifestV2S2)
    } else if text == type_bytes(MediaTypes::OciImageManifest) {
        Some(MediaTypes::OciImageManifest)
    } else if text == type_bytes(MediaTypes::ManifestList) {
        Some(MediaTypes::ManifestList)
    } else if text == type_bytes(MediaTypes::OciImageIndex) {
        Some(MediaTypes::OciImageIndex)
    } else if text == type_bytes(MediaTypes::ImageLayerTgz) {
        Some(MediaTypes::ImageLayerTgz)
    } else if text == type_bytes(MediaTypes::ImageLayerZstd) {
        Some(MediaTypes::ImageLayerZstd)
    } else if text == type_bytes(MediaTypes::ImageLayerTar) {
        Some(MediaTypes::ImageLayerTar)
    } else if text == type_bytes(MediaTypes::ForeignLayerTgz) {
        Some(MediaTypes::ForeignLayerTgz)
    } else if text == type_bytes(MediaTypes::ContainerConfigV1) {
        Some(MediaTypes::ContainerConfigV1)
    } else {
        None
    }
}

/// How a layer of a media type is compressed; `None` for what is no layer.
pub open spec fn layer_compression(m: MediaTypes) -> Option<Compression> {
    match m {
        MediaTypes::ImageLayerTgz | MediaTypes::ForeignLayerTgz => Some(Compression::Gzip),
        MediaTypes::ImageLayerZstd => Some(Compression::Zstd),
        MediaTypes::ImageLayerTar => Some(Compression::Identity),
        _ => None,
    }
}

/// What a manifest of a media type is; `None` for what is no manifest.
pub open spec fn manifest_kind(m: MediaTypes) -> Option<ManifestKind> {
    match m {
        MediaTypes::ManifestV2S1
        | MediaTypes::ManifestV2S1Signed
        | MediaTypes::ManifestV2S2
        | MediaTypes::OciImageManifest => Some(ManifestKind::Single),
        MediaTypes::ManifestList | MediaTypes::OciImageIndex => Some(ManifestKind::List),
        _ => None,
    }
}

/// The manifest media types that a client accepts where it is told nothing
/// else, in the order in which it names them.
pub open spec fn default_accepted() -> Seq<MediaTypes> {
    seq![
        MediaTypes::ManifestV2S1Signed,
        MediaTypes::ManifestV2S2,
        MediaTypes::OciImageManifest,
        MediaTypes::ManifestList,
        MediaTypes::OciImageIndex,
    ]
}

/// Reveals the texts of all media types.
pub proof fn lemma_type_texts()
    ensures
        type_text(MediaTypes::ManifestV2S1).len() == 52,
        type_text(MediaTypes::ManifestV2S1Signed).len() == 57,
        type_text(MediaTypes::ManifestV2S2).len() == 52,
        type_text(MediaTypes::OciImageManifest).len() == 42,
        type_text(MediaTypes::ManifestList).len() == 57,
        type_text(MediaTypes::OciImageIndex).len() == 39,
        type_text(MediaTypes::ImageLayerTgz).len() == 49,
        type_text(MediaTypes::ImageLayerZstd).len() == 43,
        type_text(MediaTypes::ImageLayerTar).len() == 38,
        type_text(MediaTypes::ForeignLayerTgz).len() == 57,
        type_text(MediaTypes::ContainerConfigV1).len() == 46,
        forall|m: MediaTypes| #[trigger] type_text(m).len() >= 38,
        forall|m: MediaTypes, i: int|
            0 <= i < type_text(m).len() ==> (#[trigger] type_text(m)[i] as u32) < 128,
        forall|m: MediaTypes| vstd::utf8::is_ascii_chars(#[trigger] type_text(m)),
{
    reveal_strlit("application/vnd.docker.distribution.manifest.v1+json");
    reveal_strlit("application/vnd.docker.distribution.manifest.v1+prettyjws");
    reveal_strlit("application/vnd.docker.distribution.manifest.v2+json");
    reveal_strlit("application/vnd.oci.image.manifest.v1+json");
    reveal_strlit("application/vnd.docker.distribution.manifest.list.v2+json");
    reveal_strlit("application/vnd.oci.image.index.v1+json");
    reveal_strlit("application/vnd.docker.image.rootfs.diff.tar.gzip");
    reveal_strlit("application/vnd.oci.image.layer.v1.tar+zstd");
    reveal_strlit("application/vnd.oci.image.layer.v1.tar");
    reveal_strlit("application/vnd.docker.image.rootfs.foreign.diff.tar.gzip");
    reveal_strlit("application/vnd.docker.container.image.v1+json");
    assert forall|m: MediaTypes| #[trigger] type_text(m).len() >= 38 by {
        match m {
            MediaTypes::ManifestV2S1 => {},
            MediaTypes::ManifestV2S1Signed => {},
            MediaTypes::ManifestV2S2 => {},
            MediaTypes::OciImageManifest => {},
            MediaTypes::ManifestList => {},
            MediaTypes::OciImageIndex => {},
            MediaTypes::ImageLayerTgz => {},
            MediaTypes::ImageLayerZstd => {},
            MediaTypes::ImageLayerTar => {},
            MediaTypes::ForeignLayerTgz => {},
            MediaTypes::ContainerConfigV1 => {},
        }
    }
    assert forall|m: MediaTypes| vstd::utf8::is_ascii_chars(#[trigger] type_text(m)) by {
        assert forall|i: int| 0 <= i < type_text(m).len() implies '\0' <= #[trigger] type_text(
            m,
        )[i] <= '\u{7f}' by {
            match m {
                MediaTypes::ManifestV2S1 => {},
                MediaTypes::ManifestV2S1Signed => {},
                MediaTypes::ManifestV2S2 => {},
                MediaTypes::OciImageManifest => {},
                MediaTypes::ManifestList => {},
                MediaTypes::OciImageIndex => {},
                MediaTypes::ImageLayerTgz => {},
                MediaTypes::ImageLayerZstd => {},
                MediaTypes::ImageLayerTar => {},
                MediaTypes::ForeignLayerTgz => {},
                MediaTypes::ContainerConfigV1 => {},
            }
        }
    }
    assert forall|m: MediaTypes, i: int| 0 <= i < type_text(m).len() implies (#[trigger] type_text(
        m,
    )[i] as u32) < 128 by {
        match m {
            MediaTypes::ManifestV2S1 => {},
            MediaTypes::ManifestV2S1Signed => {},
            MediaTypes::ManifestV2S2 => {},
            MediaTypes::OciImageManifest => {},
            MediaTypes::ManifestList => {},
            MediaTypes::OciImageIndex => {},
            MediaTypes::ImageLayerTgz => {},
            MediaTypes::ImageLayerZstd => {},
            MediaTypes::ImageLayerTar => {},
            MediaTypes::ForeignLayerTgz => {},
            MediaTypes::ContainerConfigV1 => {},
        }
    }
}

impl MediaTypes {
    /// The text of the media type.
    pub fn to_bytes(&self) -> (r: Vec<u8>)
        ensures
            r@ == type_bytes(*self),
    {
        proof {
            lemma_type_texts();
        }
        match self {
            MediaTypes::ManifestV2S1 => ascii_bytes("application/vnd.docker.distribution.manifest.v1+json"),
            MediaTypes::ManifestV2S1Signed => ascii_bytes("application/vnd.docker.distribution.manifest.v1+prettyjws"),
            MediaTypes::ManifestV2S2 => ascii_bytes("application/vnd.docker.distribution.manifest.v2+json"),
            MediaTypes::OciImageManifest => ascii_bytes("application/vnd.oci.image.manifest.v1+json"),
            MediaTypes::ManifestList => ascii_bytes("application/vnd.docker.distribution.manifest.list.v2+json"),
            MediaTypes::OciImageIndex => ascii_bytes("application/vnd.oci.image.index.v1+json"),
            MediaTypes::ImageLayerTgz => ascii_bytes("application/vnd.docker.image.rootfs.diff.tar.gzip"),
            MediaTypes::ImageLayerZstd => ascii_bytes("application/vnd.oci.image.layer.v1.tar+zstd"),
            MediaTypes::ImageLayerTar => ascii_bytes("application/vnd.oci.image.layer.v1.tar"),
            MediaTypes::ForeignLayerTgz => ascii_bytes("application/vnd.docker.image.rootfs.foreign.diff.tar.gzip"),
            MediaTypes::ContainerConfigV1 => ascii_bytes("application/vnd.docker.container.image.v1+json"),
        }
    }

    /// The media type that a text stands for, if any.
    pub fn from_bytes(text: &Vec<u8>) -> (r: Option<MediaTypes>)
        ensures
            r == type_of(text@),
    {
        if bytes_eq(text, &MediaTypes::ManifestV2S1.to_bytes()) {
            Some(MediaTypes::ManifestV2S1)
        } else if bytes_eq(text, &MediaTypes::ManifestV2S1Signed.to_bytes()) {
            Some(MediaTypes::ManifestV2S1Signed)
        } else if bytes_eq(text, &MediaTypes::ManifestV2S2.to_bytes()) {
            Some(MediaTypes::ManifestV2S2)
        } else if bytes_eq(text, &MediaTypes::OciImageManifest.to_bytes()) {
            Some(MediaTypes::OciImageManifest)
        } else if bytes_eq(text, &MediaTypes::ManifestList.to_bytes()) {
            Some(MediaTypes::ManifestList)
        } else if bytes_eq(text, &MediaTypes::OciImageIndex.to_bytes()) {
            Some(MediaTypes::OciImageIndex)
        } else if bytes_eq(text, &MediaTypes::ImageLayerTgz.to_bytes()) {
            Some(MediaTypes::ImageLayerTgz)
        } else if bytes_eq(text, &MediaTypes::ImageLayerZstd.to_bytes()) {
            Some(MediaTypes::ImageLayerZstd)
        } else if bytes_eq(text, &MediaTypes::ImageLayerTar.to_bytes()) {
            Some(MediaTypes::ImageLayerTar)
        } else if bytes_eq(text, &MediaTypes::ForeignLayerTgz.to_bytes()) {
            Some(MediaTypes::ForeignLayerTgz)
        } else if bytes_eq(text, &MediaTypes::ContainerConfigV1.to_bytes()) {
            Some(MediaTypes::ContainerConfigV1)
        } else {
            None
        }
    }

    /// How a layer of this media type is compressed; `None` for what is no
    /// layer.
    pub fn compression(&self) -> (r: Option<Compression>)
        ensures
            r == layer_compression(*self),
    {
        match self {
            MediaTypes::ImageLayerTgz | MediaTypes::ForeignLayerTgz => Some(Compression::Gzip),
            MediaTypes::ImageLayerZstd => Some(Compression::Zstd),
            MediaTypes::ImageLayerTar => Some(Compression::Identity),
            _ => None,
        }
    }

    /// What a manifest of this media type is; `None` for what is no manifest.
    pub fn kind(&self) -> (r: Option<ManifestKind>)
        ensures
            r == manifest_kind(*self),
    {
        match self {
            MediaTypes::ManifestV2S1
            | MediaTypes::ManifestV2S1Signed
            | MediaTypes::ManifestV2S2
            | MediaTypes::OciImageManifest => Some(ManifestKind::Single),
            MediaTypes::ManifestList | MediaTypes::OciImageIndex => Some(ManifestKind::List),
            _ => None,
        }
    }
}

/// The manifest media types that a client accepts where it is told nothing
/// else.
pub fn default_accepted_types() -> (r: Vec<MediaTypes>)
    ensures
        r@ == default_accepted(),
{
    let mut r: Vec<MediaTypes> = Vec::new();
    r.push(MediaTypes::ManifestV2S1Signed);
    r.push(MediaTypes::ManifestV2S2);
    r.push(MediaTypes::OciImageManifest);
    r.push(MediaTypes::ManifestList);
    r.push(MediaTypes::OciImageIndex);
    assert(r@ =~= default_accepted());
    r
}

/// The media type of a `Content-Type`, where it is one of those accepted.
pub open spec fn acceptable(content_type: Seq<u8>, accepted: Seq<MediaTypes>) -> Option<
    MediaTypes,
> {
    match type_of(content_type) {
        Some(m) => if accepted.contains(m) {
            Some(m)
        } else {
            None
        },
        None => None,
    }
}

/// Matches the `Content-Type` of a response against the media types that the
/// client accepts.
pub fn match_content_type(content_type: &Vec<u8>, accepted: &Vec<MediaTypes>) -> (r: Option<
    MediaTypes,
>)
    ensures
        r == acceptable(content_type@, accepted@),
{
    match MediaTypes::from_bytes(content_type) {
        None => None,
        Some(m) => {
            let mut i: usize = 0;
            while i < accepted.len()
                invariant
                    i <= accepted.len(),
                    type_of(content_type@) == Some(m),
                    forall|j: int| 0 <= j < i ==> accepted@[j] != m,
                decreases accepted.len() - i,
            {
                if accepted[i] == m {
                    assert(accepted@[i as int] == m);
                    return Some(m);
                }
                i = i + 1;
            }
            None
        },
    }
}

/// The text of a media type stands for that media type, and for no other.
pub proof fn law_media_type_round_trip(m: MediaTypes)
    ensures
        type_of(type_bytes(m)) == Some(m),
{
    lemma_type_texts();
    lemma_texts_differ();
}

/// The texts of two different media types differ.
pub proof fn lemma_texts_differ()
    ensures
        forall|a: MediaTypes, b: MediaTypes| a != b ==> #[trigger] type_bytes(a) != #[trigger] type_bytes(b),
{
    lemma_type_texts();
    assert forall|a: MediaTypes, b: MediaTypes| a != b implies #[trigger] type_bytes(a)
        != #[trigger] type_bytes(b) by {
        lemma_pair_differs(a, b);
    }
}


/// The texts of two different media types differ in length or at some byte.
proof fn lemma_pair_differs(a: MediaTypes, b: MediaTypes)
    requires
        a != b,
    ensures
        type_bytes(a) != type_bytes(b),
{
    lemma_type_texts();
    let x = type_bytes(a);
    let y = type_bytes(b);
    if x.len() == y.len() {
        let i = differing_index(a, b);
        lemma_differing_index(a, b);
        assert(x[i] != y[i]);
    }
}

/// An index at which the texts of two different media types of equal length
/// differ.
spec fn differing_index(a: MediaTypes, b: MediaTypes) -> int {
    match (a, b) {
        (MediaTypes::ManifestV2S1, MediaTypes::ManifestV2S2) => 46,
        (MediaTypes::ManifestV2S1Signed, MediaTypes::ManifestList) => 45,
        (MediaTypes::ManifestV2S1Signed, MediaTypes::ForeignLayerTgz) => 23,
        (MediaTypes::ManifestV2S2, MediaTypes::ManifestV2S1) => 46,
        (MediaTypes::ManifestList, MediaTypes::ManifestV2S1Signed) => 45,
        (MediaTypes::ManifestList, MediaTypes::ForeignLayerTgz) => 23,
        (MediaTypes::ForeignLayerTgz, MediaTypes::ManifestV2S1Signed) => 23,
        (MediaTypes::ForeignLayerTgz, MediaTypes::ManifestList) => 23,
        _ => 0,
    }
}

/// `differing_index` is what it says.
proof fn lemma_differing_index(a: MediaTypes, b: MediaTypes)
    requires
        a != b,
        type_bytes(a).len() == type_bytes(b).len(),
    ensures
        0 <= differing_index(a, b) < type_bytes(a).len(),
        type_bytes(a)[differing_index(a, b)] != type_bytes(b)[differing_index(a, b)],
{
    lemma_type_texts();
    reveal_strlit("application/vnd.docker.distribution.manifest.v1+json");
    reveal_strlit("application/vnd.docker.distribution.manifest.v1+prettyjws");
    reveal_strlit("application/vnd.docker.distribution.manifest.v2+json");
    reveal_strlit("application/vnd.oci.image.manifest.v1+json");
    reveal_strlit("application/vnd.docker.distribution.manifest.list.v2+json");
    reveal_strlit("application/vnd.oci.image.index.v1+json");
    reveal_strlit("application/vnd.docker.image.rootfs.diff.tar.gzip");
    reveal_strlit("application/vnd.oci.image.layer.v1.tar+zstd");
    reveal_strlit("application/vnd.oci.image.layer.v1.tar");
    reveal_strlit("application/vnd.docker.image.rootfs.foreign.diff.tar.gzip");
    reveal_strlit("application/vnd.docker.container.image.v1+json");
}

/// The compression that the text of a layer media type stands for in a layer
/// blob is the compression of that media type.
pub proof fn law_layer_compression(m: MediaTypes)
    requires
        layer_compression(m) is Some,
    ensures
        Some(compression_of(Some(type_text(m)))) == layer_compression(m),
{
    lemma_type_texts();
    reveal_strlit("application/vnd.docker.distribution.manifest.v1+json");
    reveal_strlit("application/vnd.docker.distribution.manifest.v1+prettyjws");
    reveal_strlit("application/vnd.docker.distribution.manifest.v2+json");
    reveal_strlit("application/vnd.oci.image.manifest.v1+json");
    reveal_strlit("application/vnd.docker.distribution.manifest.list.v2+json");
    reveal_strlit("application/vnd.oci.image.index.v1+json");
    reveal_strlit("application/vnd.docker.image.rootfs.diff.tar.gzip");
    reveal_strlit("application/vnd.oci.image.layer.v1.tar+zstd");
    reveal_strlit("application/vnd.oci.image.layer.v1.tar");
    reveal_strlit("application/vnd.docker.image.rootfs.foreign.diff.tar.gzip");
    reveal_strlit("application/vnd.docker.container.image.v1+json");
    reveal_strlit("+zstd");
    let t = type_text(m);
    let n = t.len() as int;
    let z = "+zstd"@;
    match m {
        MediaTypes::ImageLayerZstd => {
            assert(t.subrange(n - 5, n) =~= z);
        },
        MediaTypes::ImageLayerTar => {
            assert(t.subrange(n - 5, n)[0] != z[0]);
        },
        _ => {
            assert(t.subrange(n - 5, n)[0] != z[0]);
            assert(t.len() != crate::codec::plain_tar_type().len());
        },
    }
}

} // verus!
