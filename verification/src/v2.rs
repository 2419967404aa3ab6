//! The decisions of a client of the registry API, version 2: where requests
//! go, what the answer to the version probe means, and how the pages of a
//! catalog or of a list of tags follow one another.
//!
//! A collection is followed through all its pages: as long as a page holds
//! items and its `Link` header names a next page, that page is asked for.
//!
//! Nothing here sends a request. The caller performs each request and hands
//! what came back to the function that decides on it.

use vstd::prelude::*;
use crate::bytes::{bytes_eq, copy_range, reversed};
use crate::mediatypes::{acceptable, match_content_type, type_of, MediaTypes};
use crate::text::{ascii, ascii_bytes, decimal, find, join, position, to_decimal};

verus! {

/// The value of `Docker-Distribution-API-Version` by which a registry says
/// that it speaks version 2.
pub open spec fn api_version() -> Seq<u8> {
    ascii("registry/2.0"@)
}

/// What the answer to `GET /v2/` says of a registry.
#[derive(Debug, Clone, Copy, PartialEq, Eq, Structural)]
pub enum Probe {
    /// Version 2 is spoken and no credentials are asked for.
    Open,
    /// Version 2 is spoken and the registry asks for credentials.
    Challenged,
    /// Version 2 is not spoken.
    Unsupported,
}

/// A status that the version probe has no reading for.
#[derive(Debug, Clone, Copy, PartialEq, Eq, Structural)]
pub struct UnexpectedStatus {
    pub status: u16,
}

/// The reading of an answer to the version probe, by its status and by the
/// value of its API version header, if it has that header.
pub open spec fn probed(status: u16, header: Option<Seq<u8>>) -> Result<Probe, UnexpectedStatus> {
    let speaks = header == Some(api_version());
    if status == 200 {
        Ok(
            if speaks {
                Probe::Open
            } else {
                Probe::Unsupported
            },
        )
    } else if status == 401 {
        Ok(
            if speaks {
                Probe::Challenged
            } else {
                Probe::Unsupported
            },
        )
    } else if status == 403 || status == 404 {
        Ok(Probe::Unsupported)
    } else {
        Err(UnexpectedStatus { status })
    }
}

/// A header value as a mathematical value.
pub open spec fn header_view(header: Option<&Vec<u8>>) -> Option<Seq<u8>> {
    match header {
        Some(h) => Some(h@),
        None => None,
    }
}

/// Reads the answer to the version probe.
pub fn probe(status: u16, header: Option<&Vec<u8>>) -> (r: Result<Probe, UnexpectedStatus>)
    ensures
        r == probed(status, header_view(header)),
{
    proof {
        reveal_strlit("registry/2.0");
    }
    let speaks = match header {
        Some(h) => bytes_eq(h, &ascii_bytes("registry/2.0")),
        None => false,
    };
    if status == 200 {
        Ok(
            if speaks {
                Probe::Open
            } else {
                Probe::Unsupported
            },
        )
    } else if status == 401 {
        Ok(
            if speaks {
                Probe::Challenged
            } else {
                Probe::Unsupported
            },
        )
    } else if status == 403 || status == 404 {
        Ok(Probe::Unsupported)
    } else {
        Err(UnexpectedStatus { status })
    }
}

/// Whether the registry that gave this answer to the version probe speaks
/// version 2.
pub fn is_v2_supported(status: u16, header: Option<&Vec<u8>>) -> (r: Result<
    bool,
    UnexpectedStatus,
>)
    ensures
        match probed(status, header_view(header)) {
            Ok(p) => r == Ok::<bool, UnexpectedStatus>(p != Probe::Unsupported),
            Err(e) => r == Err::<bool, _>(e),
        },
{
    match probe(status, header) {
        Ok(Probe::Unsupported) => Ok(false),
        Ok(_) => Ok(true),
        Err(e) => Err(e),
    }
}

/// Whether a blob exists, by the status of the answer to `HEAD` on it.
pub fn blob_exists(status: u16) -> (r: bool)
    ensures
        r == (status == 200),
{
    status == 200
}

/// What the answer to `HEAD` on a manifest says: the media type of the
/// manifest where the status is 200 and the `Content-Type` is one of those
/// accepted; nothing where it is another, or where the status is 404.
pub open spec fn manifest_found(
    status: u16,
    content_type: Option<Seq<u8>>,
    accepted: Seq<MediaTypes>,
) -> Result<Option<MediaTypes>, UnexpectedStatus> {
    if status == 200 {
        Ok(
            match content_type {
                Some(t) => acceptable(t, accepted),
                None => None,
            },
        )
    } else if status == 404 {
        Ok(None)
    } else {
        Err(UnexpectedStatus { status })
    }
}

/// Reads the answer to `HEAD` on a manifest.
pub fn has_manifest(status: u16, content_type: Option<&Vec<u8>>, accepted: &Vec<MediaTypes>) -> (r:
    Result<Option<MediaTypes>, UnexpectedStatus>)
    ensures
        r == manifest_found(status, header_view(content_type), accepted@),
{
    if status == 200 {
        Ok(
            match content_type {
                Some(t) => match_content_type(t, accepted),
                None => None,
            },
        )
    } else if status == 404 {
        Ok(None)
    } else {
        Err(UnexpectedStatus { status })
    }
}

/// How the body of a manifest is to be read.
#[derive(Debug, Clone, Copy, PartialEq, Eq, Structural)]
pub enum ManifestShape {
    /// A signed schema-1 manifest.
    S1Signed,
    /// A schema-2 manifest; its config blob is to be fetched with it.
    S2,
    /// An OCI image manifest, read as a schema-2 manifest; its config blob
    /// is to be fetched with it.
    OciImage,
    /// A manifest list or an OCI image index; its children are not followed.
    List,
}

/// A manifest came under a `Content-Type` that names no kind of manifest
/// that can be read.
#[derive(Debug, Clone, Copy, PartialEq, Eq, Structural)]
pub struct UnexpectedMediaType {}

/// How the body of a manifest that came under a `Content-Type` is to be
/// read; `None` where it cannot.
pub open spec fn shape_of(content_type: Seq<u8>) -> Option<ManifestShape> {
    match type_of(content_type) {
        Some(MediaTypes::ManifestV2S1Signed) => Some(ManifestShape::S1Signed),
        Some(MediaTypes::ManifestV2S2) => Some(ManifestShape::S2),
        Some(MediaTypes::OciImageManifest) => Some(ManifestShape::OciImage),
        Some(MediaTypes::ManifestList) | Some(MediaTypes::OciImageIndex) => Some(
            ManifestShape::List,
        ),
        _ => None,
    }
}

/// Decides how the body of a manifest is to be read.
pub fn manifest_shape(content_type: &Vec<u8>) -> (r: Result<ManifestShape, UnexpectedMediaType>)
    ensures
        match r {
            Ok(s) => shape_of(content_type@) == Some(s),
            Err(_) => shape_of(content_type@) is None,
        },
{
    match MediaTypes::from_bytes(content_type) {
        Some(MediaTypes::ManifestV2S1Signed) => Ok(ManifestShape::S1Signed),
        Some(MediaTypes::ManifestV2S2) => Ok(ManifestShape::S2),
        Some(MediaTypes::OciImageManifest) => Ok(ManifestShape::OciImage),
        Some(MediaTypes::ManifestList) | Some(MediaTypes::OciImageIndex) => Ok(ManifestShape::List),
        _ => Err(UnexpectedMediaType {  }),
    }
}

/// Whether the config blob is to be fetched with a manifest of this shape.
pub fn needs_config(shape: ManifestShape) -> (r: bool)
    ensures
        r == (shape == ManifestShape::S2 || shape == ManifestShape::OciImage),
{
    match shape {
        ManifestShape::S2 | ManifestShape::OciImage => true,
        _ => false,
    }
}

/// The URL of a path of the API on a host: `http` for an insecure registry
/// and `https` else, then `://`, the host, `/v2/` and the path.
pub open spec fn url_of(insecure: bool, host: Seq<u8>, path: Seq<u8>) -> Seq<u8> {
    (if insecure {
        ascii("http://"@)
    } else {
        ascii("https://"@)
    }) + host + ascii("/v2/"@) + path
}

/// The path under which the catalog is served.
pub open spec fn catalog_path() -> Seq<u8> {
    ascii("_catalog"@)
}

/// The path under which the tags of a repository are served.
pub open spec fn tags_path(repository: Seq<u8>) -> Seq<u8> {
    repository + ascii("/tags/list"@)
}

/// The path under which a manifest of a repository is served, by tag or by
/// digest.
pub open spec fn manifest_path(repository: Seq<u8>, version: Seq<u8>) -> Seq<u8> {
    repository + ascii("/manifests/"@) + version
}

/// The path under which a blob of a repository is served.
pub open spec fn blob_path(repository: Seq<u8>, digest: Seq<u8>) -> Seq<u8> {
    repository + ascii("/blobs/"@) + digest
}

/// The URL of a path of the API on a host.
pub fn endpoint(insecure: bool, host: &Vec<u8>, path: &Vec<u8>) -> (r: Vec<u8>)
    ensures
        r@ == url_of(insecure, host@, path@),
{
    proof {
        reveal_strlit("http://");
        reveal_strlit("https://");
        reveal_strlit("/v2/");
    }
    let scheme = if insecure {
        ascii_bytes("http://")
    } else {
        ascii_bytes("https://")
    };
    join(&join(&join(&scheme, host), &ascii_bytes("/v2/")), path)
}

/// The URL of the version probe.
pub fn version_url(insecure: bool, host: &Vec<u8>) -> (r: Vec<u8>)
    ensures
        r@ == url_of(insecure, host@, Seq::empty()),
{
    endpoint(insecure, host, &Vec::new())
}

/// The URL of the catalog.
pub fn catalog_url(insecure: bool, host: &Vec<u8>) -> (r: Vec<u8>)
    ensures
        r@ == url_of(insecure, host@, catalog_path()),
{
    proof {
        reveal_strlit("_catalog");
    }
    endpoint(insecure, host, &ascii_bytes("_catalog"))
}

/// The URL of the tags of a repository.
pub fn tags_url(insecure: bool, host: &Vec<u8>, repository: &Vec<u8>) -> (r: Vec<u8>)
    ensures
        r@ == url_of(insecure, host@, tags_path(repository@)),
{
    proof {
        reveal_strlit("/tags/list");
    }
    endpoint(insecure, host, &join(repository, &ascii_bytes("/tags/list")))
}

/// The URL of a manifest of a repository.
pub fn manifest_url(insecure: bool, host: &Vec<u8>, repository: &Vec<u8>, version: &Vec<u8>) -> (r:
    Vec<u8>)
    ensures
        r@ == url_of(insecure, host@, manifest_path(repository@, version@)),
{
    proof {
        reveal_strlit("/manifests/");
    }
    endpoint(insecure, host, &join(&join(repository, &ascii_bytes("/manifests/")), version))
}

/// The URL of a blob of a repository.
pub fn blob_url(insecure: bool, host: &Vec<u8>, repository: &Vec<u8>, digest: &Vec<u8>) -> (r: Vec<
    u8,
>)
    ensures
        r@ == url_of(insecure, host@, blob_path(repository@, digest@)),
{
    proof {
        reveal_strlit("/blobs/");
    }
    endpoint(insecure, host, &join(&join(repository, &ascii_bytes("/blobs/")), digest))
}

/// The URL of the first page of a collection: the URL of the collection,
/// with `?n=` and the page size where one is asked for.
pub open spec fn first_page(collection: Seq<u8>, page_size: Option<u32>) -> Seq<u8> {
    match page_size {
        Some(n) => collection + ascii("?n="@) + decimal(n as nat),
        None => collection,
    }
}

/// The URL of the first page of a collection.
pub fn first_page_url(collection: &Vec<u8>, page_size: Option<u32>) -> (r: Vec<u8>)
    ensures
        r@ == first_page(collection@, page_size),
{
    proof {
        reveal_strlit("?n=");
    }
    match page_size {
        Some(n) => join(&join(collection, &ascii_bytes("?n=")), &to_decimal(n)),
        None => collection.clone(),
    }
}

/// Whether `pattern` stands in `s` at index `i`.
pub open spec fn stands_at(s: Seq<u8>, pattern: Seq<u8>, i: int) -> bool {
    0 <= i && i + pattern.len() <= s.len() && s.subrange(i, i + pattern.len()) == pattern
}

/// Whether `pattern` stands somewhere in `s`.
pub open spec fn occurs(s: Seq<u8>, pattern: Seq<u8>) -> bool {
    exists|i: int| stands_at(s, pattern, i)
}

/// Whether `pattern` stands somewhere in `s`.
pub fn contains(s: &Vec<u8>, pattern: &Vec<u8>) -> (r: bool)
    ensures
        r == occurs(s@, pattern@),
{
    if pattern.len() > s.len() {
        assert forall|i: int| !stands_at(s@, pattern@, i) by {}
        return false;
    }
    let last: usize = s.len() - pattern.len();
    let mut i: usize = 0;
    while i <= last
        invariant
            i <= last + 1,
            last == s.len() - pattern.len(),
            forall|j: int| 0 <= j < i ==> !stands_at(s@, pattern@, j),
        decreases last + 1 - i,
    {
        let mut k: usize = 0;
        while k < pattern.len() && s[i + k] == pattern[k]
            invariant
                k <= pattern.len(),
                i + pattern.len() <= s.len(),
                forall|m: int| 0 <= m < k ==> s@[i + m] == pattern@[m],
            decreases pattern.len() - k,
        {
            k = k + 1;
        }
        if k == pattern.len() {
            assert(s@.subrange(i as int, i + pattern.len()) =~= pattern@);
            assert(stands_at(s@, pattern@, i as int));
            return true;
        }
        assert(!stands_at(s@, pattern@, i as int)) by {
            if stands_at(s@, pattern@, i as int) {
                assert(s@.subrange(i as int, i + pattern.len())[k as int] == pattern@[k as int]);
            }
        }
        i = i + 1;
    }
    assert forall|j: int| !stands_at(s@, pattern@, j) by {}
    false
}

/// The query by which the next page is asked for, as a `Link` header gives
/// it: the target stands between the first `<` and the `>` that follows it,
/// `rel="next"` stands after that, and the query is what follows the first
/// `?` of the target. `None` where any of these is missing.
pub open spec fn link_query(link: Seq<u8>) -> Option<Seq<u8>> {
    let open = find(link, 60, 0);
    if open >= link.len() {
        None
    } else {
        let close = find(link, 62, open + 1);
        if close >= link.len() {
            None
        } else {
            let target = link.subrange(open + 1, close);
            let mark = find(target, 63, 0);
            if !occurs(link.subrange(close + 1, link.len() as int), ascii("rel=\"next\""@)) || mark
                >= target.len() {
                None
            } else {
                Some(target.subrange(mark + 1, target.len() as int))
            }
        }
    }
}

/// The query by which the next page is asked for, as a `Link` header gives
/// it.
pub fn next_query(link: &Vec<u8>) -> (r: Option<Vec<u8>>)
    ensures
        header_owned(r) == link_query(link@),
{
    proof {
        reveal_strlit("rel=\"next\"");
    }
    let open = position(link, 60, 0);
    if open >= link.len() {
        return None;
    }
    let close = position(link, 62, open + 1);
    if close >= link.len() {
        return None;
    }
    let target = copy_range(link, open + 1, close);
    let params = copy_range(link, close + 1, link.len());
    let mark = position(&target, 63, 0);
    if !contains(&params, &ascii_bytes("rel=\"next\"")) || mark >= target.len() {
        return None;
    }
    Some(copy_range(&target, mark + 1, target.len()))
}

/// An optional text as a mathematical value.
pub open spec fn header_owned(header: Option<Vec<u8>>) -> Option<Seq<u8>> {
    match header {
        Some(h) => Some(h@),
        None => None,
    }
}

/// The URL of the page that follows a page of `count` items which came with
/// the given `Link` header: the collection with the query of the link.
/// `None`, which ends the collection, where the page is empty or its link
/// names no next page.
pub open spec fn follow(collection: Seq<u8>, count: nat, link: Option<Seq<u8>>) -> Option<Seq<u8>> {
    if count == 0 {
        None
    } else {
        match link {
            None => None,
            Some(l) => match link_query(l) {
                None => None,
                Some(q) => Some(collection + seq![63u8] + q),
            },
        }
    }
}

/// The URL of the page that follows a page, if any does.
pub fn next_page_url(collection: &Vec<u8>, count: usize, link: Option<&Vec<u8>>) -> (r: Option<
    Vec<u8>,
>)
    ensures
        header_owned(r) == follow(collection@, count as nat, header_view(link)),
{
    if count == 0 {
        return None;
    }
    match link {
        None => None,
        Some(l) => match next_query(l) {
            None => None,
            Some(q) => {
                let mut url = collection.clone();
                url.push(63);
                let url = join(&url, &q);
                assert(url@ =~= collection@ + seq![63u8] + q@);
                Some(url)
            },
        },
    }
}

/// One page as it came back: its items and its `Link` header, or the error
/// that came in its place.
pub enum Page<T, E> {
    Items { items: Vec<T>, link: Option<Vec<u8>> },
    Failed { error: E },
}

/// Whether the collection goes on after a page.
pub open spec fn goes_on<T, E>(collection: Seq<u8>, page: Page<T, E>) -> bool {
    page matches Page::Items { items, link } && follow(
        collection,
        items@.len(),
        header_owned(link),
    ) is Some
}

/// What a page yields: each of its items, in its order, or its error.
pub open spec fn page_yield<T, E>(page: Page<T, E>) -> Seq<Result<T, E>> {
    match page {
        Page::Items { items, link } => Seq::new(items@.len(), |i: int| Ok(items@[i])),
        Page::Failed { error } => seq![Err(error)],
    }
}

/// How many of the pages are asked for: all up to and with the first after
/// which the collection does not go on.
pub open spec fn pages_read<T, E>(collection: Seq<u8>, pages: Seq<Page<T, E>>) -> nat
    decreases pages.len(),
{
    if pages.len() == 0 {
        0
    } else if goes_on(collection, pages[0]) {
        1 + pages_read(collection, pages.drop_first())
    } else {
        1
    }
}

/// What the pages yield one after the other.
pub open spec fn joined<T, E>(pages: Seq<Page<T, E>>) -> Seq<Result<T, E>>
    decreases pages.len(),
{
    if pages.len() == 0 {
        Seq::empty()
    } else {
        page_yield(pages[0]) + joined(pages.drop_first())
    }
}

/// What a collection yields, given the pages that the registry answers with,
/// in the order of the requests: the items of each page, in the order of the
/// wire, as long as the collection goes on; an error ends it.
pub open spec fn yielded<T, E>(collection: Seq<u8>, pages: Seq<Page<T, E>>) -> Seq<Result<T, E>>
    decreases pages.len(),
{
    if pages.len() == 0 {
        Seq::empty()
    } else if goes_on(collection, pages[0]) {
        page_yield(pages[0]) + yielded(collection, pages.drop_first())
    } else {
        page_yield(pages[0])
    }
}

/// What a collection yields, given the pages that the registry answered
/// with, in the order of the requests.
pub fn replay<T, E>(collection: &Vec<u8>, pages: Vec<Page<T, E>>) -> (r: Vec<Result<T, E>>)
    ensures
        r@ == yielded(collection@, pages@),
{
    let ghost all = pages@;
    let mut stack = reversed(pages);
    let mut r: Vec<Result<T, E>> = Vec::new();
    let mut done: bool = false;
    proof {
        assert(all.subrange(0, all.len() as int) =~= all);
        assert(Seq::<Result<T, E>>::empty() + yielded(collection@, all) =~= yielded(
            collection@,
            all,
        ));
    }
    while !done && stack.len() > 0
        invariant
            stack@.len() <= all.len(),
            stack@ == all.subrange(all.len() - stack@.len(), all.len() as int).reverse(),
            !done ==> yielded(collection@, all) == r@ + yielded(
                collection@,
                all.subrange(all.len() - stack@.len(), all.len() as int),
            ),
            done ==> yielded(collection@, all) == r@,
        decreases stack@.len() + (if done { 0int } else { 1int }),
    {
        let ghost rest = all.subrange(all.len() - stack@.len(), all.len() as int);
        let ghost before = r@;
        let page = stack.pop().unwrap();
        proof {
            assert(page == rest[0]);
            assert(rest.drop_first() =~= all.subrange(
                all.len() - stack@.len(),
                all.len() as int,
            ));
            assert(stack@ =~= rest.drop_first().reverse());
        }
        match page {
            Page::Items { items, link } => {
                let given: Option<&Vec<u8>> = link.as_ref();
                assert(header_view(given) == header_owned(link));
                let next = next_page_url(collection, items.len(), given);
                let ghost listed = items@;
                let mut items = reversed(items);
                while items.len() > 0
                    invariant
                        items@.len() <= listed.len(),
                        items@ == listed.subrange(
                            listed.len() - items@.len(),
                            listed.len() as int,
                        ).reverse(),
                        r@ == before + Seq::new(
                            (listed.len() - items@.len()) as nat,
                            |i: int| Ok::<T, E>(listed[i]),
                        ),
                    decreases items@.len(),
                {
                    let ghost left = listed.subrange(
                        listed.len() - items@.len(),
                        listed.len() as int,
                    );
                    let ghost sofar = r@;
                    let item = items.pop().unwrap();
                    proof {
                        assert(item == left[0]);
                        assert(items@ =~= listed.subrange(
                            listed.len() - items@.len(),
                            listed.len() as int,
                        ).reverse());
                    }
                    r.push(Ok(item));
                    assert(r@ =~= before + Seq::new(
                        (listed.len() - items@.len()) as nat,
                        |i: int| Ok::<T, E>(listed[i]),
                    ));
                }
                assert(r@ =~= before + page_yield(page));
                if next.is_none() {
                    done = true;
                }
            },
            Page::Failed { error } => {
                r.push(Err(error));
                assert(r@ =~= before + page_yield(page));
                done = true;
            },
        }
        proof {
            if !done {
                assert(yielded(collection@, rest) == page_yield(page) + yielded(
                    collection@,
                    rest.drop_first(),
                ));
                assert(before + (page_yield(page) + yielded(collection@, rest.drop_first()))
                    =~= (before + page_yield(page)) + yielded(collection@, rest.drop_first()));
            } else {
                assert(yielded(collection@, rest) == page_yield(page));
            }
        }
    }
    proof {
        if !done {
            assert(all.subrange(all.len() as int, all.len() as int) =~= Seq::<Page<T, E>>::empty());
            assert(r@ + Seq::<Result<T, E>>::empty() =~= r@);
        }
    }
    r
}

/// Pagination yields the pages joined: what a collection yields is what the
/// pages that were asked for yield one after the other, in their order.
pub proof fn law_pages_joined<T, E>(collection: Seq<u8>, pages: Seq<Page<T, E>>)
    ensures
        pages_read(collection, pages) <= pages.len(),
        yielded(collection, pages) == joined(
            pages.subrange(0, pages_read(collection, pages) as int),
        ),
    decreases pages.len(),
{
    if pages.len() > 0 {
        let rest = pages.drop_first();
        law_pages_joined(collection, rest);
        let n = pages_read(collection, pages) as int;
        let read = pages.subrange(0, n);
        if goes_on(collection, pages[0]) {
            assert(read.drop_first() =~= rest.subrange(0, n - 1));
            assert(read[0] == pages[0]);
        } else {
            assert(read.drop_first() =~= Seq::<Page<T, E>>::empty());
            assert(read[0] == pages[0]);
            assert(joined(read.drop_first()) =~= Seq::<Result<T, E>>::empty());
            assert(page_yield(pages[0]) + Seq::<Result<T, E>>::empty() =~= page_yield(pages[0]));
        }
    } else {
        assert(pages.subrange(0, 0) =~= pages);
    }
}

/// Where no page fails, a collection yields the items of the pages that were
/// asked for, one page after the other, each in the order of the wire.
pub proof fn law_items_in_wire_order<T, E>(
    collection: Seq<u8>,
    pages: Seq<Page<T, E>>,
    p: int,
    i: int,
) -> (at: int)
    requires
        0 <= p < pages_read(collection, pages),
        pages[p] matches Page::Items { items, link } && 0 <= i < items@.len(),
    ensures
        0 <= at < yielded(collection, pages).len(),
        pages[p] matches Page::Items { items, link } && yielded(collection, pages)[at] == Ok::<
            T,
            E,
        >(items@[i]),
    decreases pages.len(),
{
    law_pages_joined(collection, pages);
    if p == 0 {
        assert(page_yield(pages[0])[i] == yielded(collection, pages)[i]);
        i
    } else {
        let rest = pages.drop_first();
        assert(rest[p - 1] == pages[p]);
        let at = law_items_in_wire_order(collection, rest, p - 1, i);
        page_yield(pages[0]).len() + at
    }
}

} // verus!
