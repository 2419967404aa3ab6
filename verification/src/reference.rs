//! References to images: `[host/]path[:tag|@digest]`.
//!
//! A reference names a registry host, a repository on it, and a version: a
//! tag, `latest` where none is given, or a digest. Where no host is given the
//! default host applies, and a repository of one segment on the default host
//! lies in the `library` namespace.

use vstd::prelude::*;
use crate::bytes::{bytes_eq, copy_range};
use crate::digest::{
    law_digest_round_trip, law_parsed_is_lower_hex, lower_hex, parsed as parsed_digest,
    rendered as rendered_digest, ContentDigest, DigestAlgorithm, DigestError,
};
use crate::text::{
    ascii, ascii_bytes, find, holds, join, lemma_find, lemma_find_unique, lemma_holds, position,
};

verus! {

/// The byte `/`.
pub const SLASH: u8 = 47;

/// The byte `:`.
pub const COLON: u8 = 58;

/// The byte `@`.
pub const AT: u8 = 64;

/// The byte `.`.
pub const DOT: u8 = 46;

/// The host that applies where a reference names none.
pub open spec fn default_host() -> Seq<u8> {
    ascii("registry.hub.docker.com"@)
}

/// The tag that applies where a reference names no version.
pub open spec fn default_tag() -> Seq<u8> {
    ascii("latest"@)
}

/// The namespace of the repositories of one segment on the default host,
/// with the `/` that follows it.
pub open spec fn library_prefix() -> Seq<u8> {
    ascii("library/"@)
}

/// The version that a reference names.
#[derive(Debug, Clone)]
pub enum Version {
    Tag(Vec<u8>),
    Digest(ContentDigest),
}

/// A `Version` as a mathematical value.
pub enum VersionView {
    Tag(Seq<u8>),
    Digest((DigestAlgorithm, Seq<u8>)),
}

impl View for Version {
    type V = VersionView;

    open spec fn view(&self) -> VersionView {
        match self {
            Version::Tag(t) => VersionView::Tag(t@),
            Version::Digest(d) => VersionView::Digest(d@),
        }
    }
}

/// A reference to an image.
#[derive(Debug, Clone)]
pub struct Reference {
    registry: Vec<u8>,
    repository: Vec<u8>,
    version: Version,
}

/// A `Reference` as a mathematical value.
pub struct ReferenceView {
    pub registry: Seq<u8>,
    pub repository: Seq<u8>,
    pub version: VersionView,
}

impl View for Reference {
    type V = ReferenceView;

    closed spec fn view(&self) -> ReferenceView {
        ReferenceView {
            registry: self.registry@,
            repository: self.repository@,
            version: self.version@,
        }
    }
}

/// Why a text is no reference.
#[derive(Debug, Clone, Copy, PartialEq, Eq, Structural)]
pub enum ReferenceError {
    /// No path is left once host and version are taken away.
    EmptyPath,
    /// The repository holds `//`.
    DoubleSlash,
    /// The tag is empty, longer than 128 bytes, or holds a byte other than a
    /// letter, a digit, `_`, `.` or `-`.
    InvalidTag,
    /// What follows `@` is no digest.
    InvalidDigest(DigestError),
}

/// The last index at which `s` holds the byte `b`; -1 where it holds none.
pub open spec fn find_last(s: Seq<u8>, b: u8) -> int
    decreases s.len(),
{
    if s.len() == 0 {
        -1
    } else if s.last() == b {
        s.len() - 1
    } else {
        find_last(s.drop_last(), b)
    }
}

/// What `find_last` returns: the byte stands at it, unless it is -1, and
/// nowhere after it.
pub proof fn lemma_find_last(s: Seq<u8>, b: u8)
    ensures
        -1 <= find_last(s, b) < s.len(),
        find_last(s, b) >= 0 ==> s[find_last(s, b)] == b,
        forall|i: int| find_last(s, b) < i < s.len() ==> s[i] != b,
    decreases s.len(),
{
    if s.len() > 0 && s.last() != b {
        lemma_find_last(s.drop_last(), b);
        assert forall|i: int| find_last(s, b) < i < s.len() implies s[i] != b by {
            if i < s.len() - 1 {
                assert(s[i] == s.drop_last()[i]);
            }
        }
    }
}

/// `find_last` returns the only index with the properties of
/// `lemma_find_last`.
pub proof fn lemma_find_last_unique(s: Seq<u8>, b: u8, k: int)
    requires
        -1 <= k < s.len(),
        k >= 0 ==> s[k] == b,
        forall|i: int| k < i < s.len() ==> s[i] != b,
    ensures
        find_last(s, b) == k,
    decreases s.len(),
{
    if s.len() > 0 && s.last() != b {
        lemma_find_last_unique(s.drop_last(), b, k);
    }
}

/// Whether the byte can stand in a tag: a letter, a digit, `_`, `.` or `-`.
pub open spec fn tag_byte(b: u8) -> bool {
    (48 <= b <= 57) || (65 <= b <= 90) || (97 <= b <= 122) || b == 95 || b == 46 || b == 45
}

/// Whether the text is a tag: 1 to 128 bytes, each of which can stand in a
/// tag.
pub open spec fn valid_tag(t: Seq<u8>) -> bool {
    1 <= t.len() <= 128 && forall|i: int| 0 <= i < t.len() ==> tag_byte(#[trigger] t[i])
}

/// Whether the text holds `//`.
pub open spec fn has_double_slash(s: Seq<u8>) -> bool {
    exists|i: int| 0 <= i < s.len() - 1 && #[trigger] s[i] == SLASH && s[i + 1] == SLASH
}

/// Whether a first segment names a host: it holds `.` or `:`, or it is
/// `localhost`.
pub open spec fn host_like(s: Seq<u8>) -> bool {
    holds(s, DOT) || holds(s, COLON) || s == ascii("localhost"@)
}

/// The host and the path of a name: the first segment is the host where
/// another follows it and it names a host; else the default host applies and
/// the whole name is the path.
pub open spec fn host_and_path(name: Seq<u8>) -> (Seq<u8>, Seq<u8>) {
    let k = find(name, SLASH, 0);
    if k < name.len() && host_like(name.subrange(0, k)) {
        (name.subrange(0, k), name.subrange(k + 1, name.len() as int))
    } else {
        (default_host(), name)
    }
}

/// The repository of a path on a host: on the default host a path of one
/// segment is put into the `library` namespace.
pub open spec fn repository_of(host: Seq<u8>, path: Seq<u8>) -> Seq<u8> {
    if host == default_host() && !holds(path, SLASH) {
        library_prefix() + path
    } else {
        path
    }
}

/// The reference that a name and a version make, if any.
pub open spec fn named(name: Seq<u8>, version: VersionView) -> Result<
    ReferenceView,
    ReferenceError,
> {
    let (host, path) = host_and_path(name);
    let repository = repository_of(host, path);
    if path.len() == 0 {
        Err(ReferenceError::EmptyPath)
    } else if has_double_slash(repository) {
        Err(ReferenceError::DoubleSlash)
    } else {
        Ok(ReferenceView { registry: host, repository, version })
    }
}

/// What a text says as a reference.
///
/// Where it holds `@`, what follows the first `@` is the digest and what
/// stands before it the name. Else, where a `:` stands after the last `/`,
/// what follows the last `:` is the tag and what stands before it the name.
/// Else the whole text is the name, and the tag is `latest`.
pub open spec fn parsed(input: Seq<u8>) -> Result<ReferenceView, ReferenceError> {
    let at = find(input, AT, 0);
    if at < input.len() {
        match parsed_digest(input.subrange(at + 1, input.len() as int)) {
            Err(e) => Err(ReferenceError::InvalidDigest(e)),
            Ok(d) => named(input.subrange(0, at), VersionView::Digest(d)),
        }
    } else {
        let colon = find_last(input, COLON);
        if colon > find_last(input, SLASH) {
            let tag = input.subrange(colon + 1, input.len() as int);
            if !valid_tag(tag) {
                Err(ReferenceError::InvalidTag)
            } else {
                named(input.subrange(0, colon), VersionView::Tag(tag))
            }
        } else {
            named(input, VersionView::Tag(default_tag()))
        }
    }
}

/// A reference written out in full: host, `/`, repository, and `:` with the
/// tag or `@` with the digest.
pub open spec fn rendered(r: ReferenceView) -> Seq<u8> {
    r.registry + seq![SLASH] + r.repository + match r.version {
        VersionView::Tag(t) => seq![COLON] + t,
        VersionView::Digest(d) => seq![AT] + rendered_digest(d),
    }
}

/// What holds of every reference that a text gives.
pub open spec fn well_formed(r: ReferenceView) -> bool {
    &&& host_like(r.registry)
    &&& !holds(r.registry, SLASH)
    &&& !holds(r.registry, AT)
    &&& r.repository.len() > 0
    &&& !has_double_slash(r.repository)
    &&& !holds(r.repository, AT)
    &&& r.registry == default_host() ==> holds(r.repository, SLASH)
    &&& match r.version {
        VersionView::Tag(t) => valid_tag(t),
        VersionView::Digest(d) => d.1.len() > 0 && lower_hex(d.1),
    }
}

/// The last index at which `s` holds the byte `b`, if any.
pub fn last_position(s: &Vec<u8>, b: u8) -> (r: Option<usize>)
    ensures
        match r {
            Some(k) => find_last(s@, b) == k,
            None => find_last(s@, b) == -1,
        },
{
    let mut k: usize = s.len();
    while k > 0 && s[k - 1] != b
        invariant
            k <= s.len(),
            forall|i: int| k <= i < s.len() ==> s@[i] != b,
        decreases k,
    {
        k = k - 1;
    }
    proof {
        lemma_find_last_unique(s@, b, k - 1);
    }
    if k == 0 {
        None
    } else {
        Some(k - 1)
    }
}

/// Whether the text is a tag.
pub fn is_valid_tag(t: &Vec<u8>) -> (r: bool)
    ensures
        r == valid_tag(t@),
{
    if t.len() < 1 || t.len() > 128 {
        return false;
    }
    let mut i: usize = 0;
    while i < t.len()
        invariant
            i <= t.len(),
            forall|j: int| 0 <= j < i ==> tag_byte(#[trigger] t@[j]),
        decreases t.len() - i,
    {
        let b: u8 = t[i];
        if !((48 <= b && b <= 57) || (65 <= b && b <= 90) || (97 <= b && b <= 122) || b == 95
            || b == 46 || b == 45) {
            return false;
        }
        i = i + 1;
    }
    true
}

/// Whether the text holds `//`.
pub fn contains_double_slash(s: &Vec<u8>) -> (r: bool)
    ensures
        r == has_double_slash(s@),
{
    if s.len() < 2 {
        return false;
    }
    let mut i: usize = 0;
    while i < s.len() - 1
        invariant
            i <= s.len() - 1,
            s.len() >= 2,
            forall|j: int| 0 <= j < i ==> !(#[trigger] s@[j] == SLASH && s@[j + 1] == SLASH),
        decreases s.len() - i,
    {
        if s[i] == SLASH && s[i + 1] == SLASH {
            return true;
        }
        i = i + 1;
    }
    false
}

/// Whether a first segment names a host.
pub fn is_host_like(s: &Vec<u8>) -> (r: bool)
    ensures
        r == host_like(s@),
{
    proof {
        reveal_strlit("localhost");
    }
    position(s, DOT, 0) < s.len() || position(s, COLON, 0) < s.len() || bytes_eq(
        s,
        &ascii_bytes("localhost"),
    )
}

impl Reference {
    /// The reference that a name and a version make.
    fn from_name(name: &Vec<u8>, version: Version) -> (r: Result<Reference, ReferenceError>)
        ensures
            match r {
                Ok(reference) => named(name@, version@) == Ok::<_, ReferenceError>(reference@),
                Err(e) => named(name@, version@) == Err::<ReferenceView, _>(e),
            },
    {
        proof {
            reveal_strlit("registry.hub.docker.com");
            reveal_strlit("library/");
        }
        let k = position(name, SLASH, 0);
        let first = copy_range(name, 0, k);
        let explicit = k < name.len() && is_host_like(&first);
        let (host, path) = if explicit {
            (first, copy_range(name, k + 1, name.len()))
        } else {
            assert(name@.subrange(0, name@.len() as int) =~= name@);
            (ascii_bytes("registry.hub.docker.com"), copy_range(name, 0, name.len()))
        };
        if path.len() == 0 {
            return Err(ReferenceError::EmptyPath);
        }
        let on_default = bytes_eq(&host, &ascii_bytes("registry.hub.docker.com"));
        let repository = if on_default && position(&path, SLASH, 0) >= path.len() {
            join(&ascii_bytes("library/"), &path)
        } else {
            path
        };
        if contains_double_slash(&repository) {
            return Err(ReferenceError::DoubleSlash);
        }
        Ok(Reference { registry: host, repository, version })
    }

    /// Reads a reference from its text.
    pub fn parse(input: &Vec<u8>) -> (r: Result<Reference, ReferenceError>)
        ensures
            match r {
                Ok(reference) => parsed(input@) == Ok::<_, ReferenceError>(reference@),
                Err(e) => parsed(input@) == Err::<ReferenceView, _>(e),
            },
    {
        let at = position(input, AT, 0);
        if at < input.len() {
            let digest_text = copy_range(input, at + 1, input.len());
            match ContentDigest::try_new(&digest_text) {
                Err(e) => Err(ReferenceError::InvalidDigest(e)),
                Ok(d) => Reference::from_name(&copy_range(input, 0, at), Version::Digest(d)),
            }
        } else {
            let colon = last_position(input, COLON);
            let slash = last_position(input, SLASH);
            proof {
                reveal_strlit("latest");
                lemma_find_last(input@, COLON);
                lemma_find_last(input@, SLASH);
            }
            let tagged: Option<usize> = match (colon, slash) {
                (Some(c), Some(s)) => if c > s {
                    Some(c)
                } else {
                    None
                },
                (Some(c), None) => Some(c),
                (None, _) => None,
            };
            match tagged {
                Some(c) => {
                    let tag = copy_range(input, c + 1, input.len());
                    if !is_valid_tag(&tag) {
                        Err(ReferenceError::InvalidTag)
                    } else {
                        Reference::from_name(&copy_range(input, 0, c), Version::Tag(tag))
                    }
                },
                None => Reference::from_name(input, Version::Tag(ascii_bytes("latest"))),
            }
        }
    }

    /// The host of the registry.
    pub fn registry(&self) -> (r: &Vec<u8>)
        ensures
            r@ == self@.registry,
    {
        &self.registry
    }

    /// The repository on the registry.
    pub fn repository(&self) -> (r: &Vec<u8>)
        ensures
            r@ == self@.repository,
    {
        &self.repository
    }

    /// The version.
    pub fn version(&self) -> (v: &Version)
        ensures
            v@ == self@.version,
    {
        &self.version
    }

    /// The reference written out in full.
    pub fn render(&self) -> (r: Vec<u8>)
        ensures
            r@ == rendered(self@),
    {
        let mut r = self.registry.clone();
        r.push(SLASH);
        let mut r = join(&r, &self.repository);
        let r = match &self.version {
            Version::Tag(t) => {
                r.push(COLON);
                join(&r, t)
            },
            Version::Digest(d) => {
                r.push(AT);
                join(&r, &d.render())
            },
        };
        assert(r@ =~= rendered(self@));
        r
    }
}

/// The default host names a host and holds neither `/` nor `@`.
proof fn lemma_default_host()
    ensures
        host_like(default_host()),
        !holds(default_host(), SLASH),
        !holds(default_host(), AT),
        default_host().len() == 23,
{
    reveal_strlit("registry.hub.docker.com");
    let h = default_host();
    assert(h[8] == DOT);
    lemma_holds(h, DOT);
    lemma_holds(h, SLASH);
    lemma_holds(h, AT);
}

/// The default tag is a tag.
proof fn lemma_default_tag()
    ensures
        valid_tag(default_tag()),
{
    reveal_strlit("latest");
}

/// A path put into the `library` namespace holds a `/`, and holds `@` or
/// `//` only where the path does.
proof fn lemma_library(path: Seq<u8>)
    requires
        !holds(path, SLASH),
    ensures
        holds(library_prefix() + path, SLASH),
        !has_double_slash(library_prefix() + path),
        holds(library_prefix() + path, AT) == holds(path, AT),
{
    reveal_strlit("library/");
    let p = library_prefix();
    let r = p + path;
    assert(p.len() == 8);
    assert(r[7] == SLASH);
    lemma_holds(r, SLASH);
    lemma_holds(path, SLASH);
    lemma_holds(r, AT);
    lemma_holds(path, AT);
    if holds(path, AT) {
        let i = choose|i: int| 0 <= i < path.len() && path[i] == AT;
        assert(r[8 + i] == AT);
    }
    if holds(r, AT) {
        let i = choose|i: int| 0 <= i < r.len() && r[i] == AT;
        assert(i >= 8);
        assert(path[i - 8] == AT);
    }
    if has_double_slash(r) {
        let i = choose|i: int| 0 <= i < r.len() - 1 && #[trigger] r[i] == SLASH && r[i + 1] == SLASH;
        if i >= 8 {
            assert(path[i - 8] == SLASH);
        } else if i == 7 {
            assert(path[0] == SLASH);
        }
    }
}

/// A part of a text holds a byte only where the text does.
proof fn lemma_part_holds(s: Seq<u8>, from: int, to: int, b: u8)
    requires
        0 <= from <= to <= s.len(),
        holds(s.subrange(from, to), b),
    ensures
        exists|i: int| from <= i < to && s[i] == b,
{
    let part = s.subrange(from, to);
    lemma_holds(part, b);
    let i = choose|i: int| 0 <= i < part.len() && part[i] == b;
    assert(s[from + i] == b);
}

/// What a name and a version make is well formed, where the name holds no
/// `@` and the version is sound.
proof fn lemma_named_well_formed(name: Seq<u8>, version: VersionView)
    requires
        !holds(name, AT),
        match version {
            VersionView::Tag(t) => valid_tag(t),
            VersionView::Digest(d) => d.1.len() > 0 && lower_hex(d.1),
        },
    ensures
        named(name, version) matches Ok(r) ==> well_formed(r),
{
    if let Ok(r) = named(name, version) {
        let k = find(name, SLASH, 0);
        let (host, path) = host_and_path(name);
        lemma_find(name, SLASH, 0);
        lemma_default_host();
        lemma_holds(name, AT);
        if k < name.len() && host_like(name.subrange(0, k)) {
            if holds(host, SLASH) {
                lemma_part_holds(name, 0, k, SLASH);
            }
            if holds(host, AT) {
                lemma_part_holds(name, 0, k, AT);
            }
        }
        if holds(path, AT) {
            if k < name.len() && host_like(name.subrange(0, k)) {
                lemma_part_holds(name, k + 1, name.len() as int, AT);
            }
        }
        if host == default_host() && !holds(path, SLASH) {
            lemma_library(path);
        }
    }
}

/// Every reference that a text gives is well formed.
pub proof fn law_parsed_well_formed(input: Seq<u8>)
    ensures
        parsed(input) matches Ok(r) ==> well_formed(r),
{
    let at = find(input, AT, 0);
    lemma_find(input, AT, 0);
    if at < input.len() {
        let text = input.subrange(at + 1, input.len() as int);
        if let Ok(d) = parsed_digest(text) {
            law_parsed_is_lower_hex(text);
            let name = input.subrange(0, at);
            if holds(name, AT) {
                lemma_part_holds(input, 0, at, AT);
            }
            lemma_named_well_formed(name, VersionView::Digest(d));
        }
    } else {
        lemma_holds(input, AT);
        let colon = find_last(input, COLON);
        lemma_find_last(input, COLON);
        lemma_find_last(input, SLASH);
        if colon > find_last(input, SLASH) {
            let tag = input.subrange(colon + 1, input.len() as int);
            let name = input.subrange(0, colon);
            if holds(name, AT) {
                lemma_part_holds(input, 0, colon, AT);
            }
            if valid_tag(tag) {
                lemma_named_well_formed(name, VersionView::Tag(tag));
            }
        } else {
            lemma_default_tag();
            lemma_named_well_formed(input, VersionView::Tag(default_tag()));
        }
    }
}

/// A host, `/` and a repository make the reference of that host and
/// repository.
proof fn lemma_named_of_rendered(r: ReferenceView)
    requires
        well_formed(r),
    ensures
        named(r.registry + seq![SLASH] + r.repository, r.version) == Ok::<_, ReferenceError>(r),
{
    let name = r.registry + seq![SLASH] + r.repository;
    let n = r.registry.len() as int;
    lemma_holds(r.registry, SLASH);
    assert forall|i: int| 0 <= i < n implies name[i] != SLASH by {
        assert(name[i] == r.registry[i]);
    }
    assert(name[n] == SLASH);
    lemma_find_unique(name, SLASH, 0, n);
    assert(name.subrange(0, n) =~= r.registry);
    assert(name.subrange(n + 1, name.len() as int) =~= r.repository);
}

/// A reference written out reads back as itself.
pub proof fn law_reference_round_trip(r: ReferenceView)
    requires
        well_formed(r),
    ensures
        parsed(rendered(r)) == Ok::<_, ReferenceError>(r),
{
    let name = r.registry + seq![SLASH] + r.repository;
    let n = name.len() as int;
    let text = rendered(r);
    lemma_named_of_rendered(r);
    lemma_holds(r.registry, AT);
    lemma_holds(r.repository, AT);
    assert forall|i: int| 0 <= i < n implies text[i] != AT by {
        assert(text[i] == name[i]);
        if i < r.registry.len() {
            assert(name[i] == r.registry[i]);
        } else if i > r.registry.len() {
            assert(name[i] == r.repository[i - r.registry.len() - 1]);
        }
    }
    assert(text.subrange(0, n) =~= name);
    match r.version {
        VersionView::Digest(d) => {
            assert(text[n] == AT);
            lemma_find_unique(text, AT, 0, n);
            assert(text.subrange(n + 1, text.len() as int) =~= rendered_digest(d));
            law_digest_round_trip(d);
        },
        VersionView::Tag(t) => {
            assert(text[n] == COLON);
            assert forall|i: int| n < i < text.len() implies text[i] != AT && text[i] != COLON
                && text[i] != SLASH by {
                assert(text[i] == t[i - n - 1]);
                assert(tag_byte(t[i - n - 1]));
            }
            lemma_find_unique(text, AT, 0, text.len() as int);
            lemma_find_last_unique(text, COLON, n);
            lemma_find_last(text, SLASH);
            assert(text.subrange(n + 1, text.len() as int) =~= t);
        },
    }
}

/// Reading, writing out and reading again gives the reference that the first
/// reading gave.
pub proof fn law_parse_render_parse(input: Seq<u8>)
    ensures
        parsed(input) matches Ok(r) ==> parsed(rendered(r)) == Ok::<_, ReferenceError>(r),
{
    law_parsed_well_formed(input);
    if let Ok(r) = parsed(input) {
        law_reference_round_trip(r);
    }
}

} // verus!
