//! Authentication: reading the challenge of a registry, forming the request
//! for a token, and deciding what credential the session goes on with.
//!
//! Nothing here sends a request. The caller probes the registry and asks the
//! token endpoint, and hands what came back to the function that decides on
//! it.

use vstd::prelude::*;
use crate::bytes::{bytes_eq, copy_range};
use crate::text::{
    ascii, ascii_bytes, find, holds, join, lemma_find, lowered, position, to_lower,
};
use crate::v2::{header_owned, header_view, probe, probed, Probe};

verus! {

/// The byte ` `.
pub const SPACE: u8 = 32;

/// The byte `"`.
pub const QUOTE: u8 = 34;

/// The byte `\`.
pub const BACKSLASH: u8 = 92;

/// The byte `,`.
pub const COMMA: u8 = 44;

/// The byte `=`.
pub const EQUALS: u8 = 61;

/// One field of a challenge: a key and the value quoted after it.
pub struct Field {
    pub key: Vec<u8>,
    pub value: Vec<u8>,
}

/// Fields as pairs of texts: key, then value.
pub open spec fn field_pairs(fields: Seq<Field>) -> Seq<(Seq<u8>, Seq<u8>)> {
    Seq::new(fields.len(), |i: int| (fields[i].key@, fields[i].value@))
}

/// What a registry asks for in `WWW-Authenticate`.
#[derive(Debug, Clone)]
pub enum Challenge {
    /// A token, to be had at `realm`.
    Bearer { realm: Vec<u8>, service: Option<Vec<u8>>, scope: Option<Vec<u8>> },
    /// A user name and a password.
    Basic { realm: Option<Vec<u8>> },
}

/// A `Challenge` as a mathematical value.
pub enum ChallengeView {
    Bearer { realm: Seq<u8>, service: Option<Seq<u8>>, scope: Option<Seq<u8>> },
    Basic { realm: Option<Seq<u8>> },
}

impl View for Challenge {
    type V = ChallengeView;

    open spec fn view(&self) -> ChallengeView {
        match self {
            Challenge::Bearer { realm, service, scope } => ChallengeView::Bearer {
                realm: realm@,
                service: header_owned(*service),
                scope: header_owned(*scope),
            },
            Challenge::Basic { realm } => ChallengeView::Basic { realm: header_owned(*realm) },
        }
    }
}

/// Why a challenge cannot be read.
#[derive(Debug, Clone, Copy, PartialEq, Eq, Structural)]
pub enum ChallengeError {
    /// The scheme is neither `Bearer` nor `Basic`.
    UnknownScheme,
    /// The fields are not `key="value"` parted by commas.
    Malformed,
    /// A bearer challenge names no realm.
    MissingRealm,
}

/// The first index at or after `i` at which `s` holds no space; the length of
/// `s` where only spaces follow.
pub open spec fn skip_spaces(s: Seq<u8>, i: int) -> int
    decreases s.len() - i,
{
    if 0 <= i < s.len() && s[i] == SPACE {
        skip_spaces(s, i + 1)
    } else if i < s.len() {
        i
    } else {
        s.len() as int
    }
}

/// Where `skip_spaces` ends: at or after `i`, and within `s`.
pub proof fn lemma_skip_spaces(s: Seq<u8>, i: int)
    requires
        0 <= i <= s.len(),
    ensures
        i <= skip_spaces(s, i) <= s.len(),
    decreases s.len() - i,
{
    if i < s.len() && s[i] == SPACE {
        lemma_skip_spaces(s, i + 1);
    }
}

/// The text quoted in `s` from index `i` on, which stands just after the
/// opening quote, with the index that follows the closing quote. A backslash
/// makes the byte after it stand for itself. `None` where no quote closes.
pub open spec fn unquote(s: Seq<u8>, i: int) -> Option<(Seq<u8>, int)>
    decreases s.len() - i,
{
    if i < 0 || i >= s.len() {
        None
    } else if s[i] == QUOTE {
        Some((Seq::empty(), i + 1))
    } else if s[i] == BACKSLASH {
        if i + 1 >= s.len() {
            None
        } else {
            match unquote(s, i + 2) {
                Some((v, n)) => Some((seq![s[i + 1]] + v, n)),
                None => None,
            }
        }
    } else {
        match unquote(s, i + 1) {
            Some((v, n)) => Some((seq![s[i]] + v, n)),
            None => None,
        }
    }
}

/// Where a quoted text ends: after where it starts, and within `s`.
pub proof fn lemma_unquote(s: Seq<u8>, i: int)
    ensures
        unquote(s, i) matches Some((v, n)) ==> i < n <= s.len(),
    decreases s.len() - i,
{
    if 0 <= i < s.len() && s[i] != QUOTE {
        if s[i] == BACKSLASH {
            if i + 1 < s.len() {
                lemma_unquote(s, i + 2);
            }
        } else {
            lemma_unquote(s, i + 1);
        }
    }
}

/// The fields written in `s` from index `i` on: each is a key, `=`, and a
/// quoted value; spaces may stand before a key and after a value; a comma
/// parts one field from the next. `None` where `s` is not written so.
pub open spec fn fields_from(s: Seq<u8>, i: int) -> Option<Seq<(Seq<u8>, Seq<u8>)>>
    decreases s.len() - i,
{
    if i < 0 || i > s.len() {
        None
    } else {
        let k = skip_spaces(s, i);
        let eq = find(s, EQUALS, k);
        if eq >= s.len() || eq == k || eq + 1 >= s.len() || s[eq + 1] != QUOTE {
            None
        } else {
            match unquote(s, eq + 2) {
                None => None,
                Some((v, n)) => {
                    let m = skip_spaces(s, n);
                    let first = seq![(s.subrange(k, eq), v)];
                    if m >= s.len() {
                        Some(first)
                    } else if s[m] == COMMA {
                        proof {
                            lemma_skip_spaces(s, i);
                            lemma_find(s, EQUALS, k);
                            lemma_unquote(s, eq + 2);
                            lemma_skip_spaces(s, n);
                        }
                        match fields_from(s, m + 1) {
                            Some(rest) => Some(first + rest),
                            None => None,
                        }
                    } else {
                        None
                    }
                },
            }
        }
    }
}

/// The value of the first field of the given key, if any.
pub open spec fn field_value(fields: Seq<(Seq<u8>, Seq<u8>)>, key: Seq<u8>) -> Option<Seq<u8>>
    decreases fields.len(),
{
    if fields.len() == 0 {
        None
    } else if fields[0].0 == key {
        Some(fields[0].1)
    } else {
        field_value(fields.drop_first(), key)
    }
}

/// What a `WWW-Authenticate` value asks for.
///
/// The scheme is what stands before the first space, whatever its case.
/// The fields follow; where nothing follows the scheme there are none.
pub open spec fn challenge_of(header: Seq<u8>) -> Result<ChallengeView, ChallengeError> {
    let end = find(header, SPACE, 0);
    let scheme = lowered(header.subrange(0, end));
    let start = skip_spaces(header, end);
    if scheme != ascii("bearer"@) && scheme != ascii("basic"@) {
        Err(ChallengeError::UnknownScheme)
    } else {
        let fields = if start >= header.len() {
            Some(Seq::empty())
        } else {
            fields_from(header, start)
        };
        match fields {
            None => Err(ChallengeError::Malformed),
            Some(f) => {
                let realm = field_value(f, ascii("realm"@));
                if scheme == ascii("basic"@) {
                    Ok(ChallengeView::Basic { realm })
                } else {
                    match realm {
                        None => Err(ChallengeError::MissingRealm),
                        Some(r) => Ok(
                            ChallengeView::Bearer {
                                realm: r,
                                service: field_value(f, ascii("service"@)),
                                scope: field_value(f, ascii("scope"@)),
                            },
                        ),
                    }
                }
            },
        }
    }
}

/// The first index at or after `i` at which `s` holds no space.
pub fn after_spaces(s: &Vec<u8>, i: usize) -> (k: usize)
    requires
        i <= s.len(),
    ensures
        k == skip_spaces(s@, i as int),
        i <= k <= s.len(),
{
    let mut k: usize = i;
    while k < s.len() && s[k] == SPACE
        invariant
            i <= k <= s.len(),
            skip_spaces(s@, i as int) == skip_spaces(s@, k as int),
        decreases s.len() - k,
    {
        k = k + 1;
    }
    k
}

/// The text quoted in `s` from index `i` on, with the index that follows the
/// closing quote.
pub fn read_quoted(s: &Vec<u8>, i: usize) -> (r: Option<(Vec<u8>, usize)>)
    requires
        i <= s.len(),
    ensures
        match r {
            Some((v, n)) => unquote(s@, i as int) == Some((v@, n as int)),
            None => unquote(s@, i as int) is None,
        },
{
    let mut value: Vec<u8> = Vec::new();
    let mut j: usize = i;
    loop
        invariant
            i <= j <= s.len(),
            unquote(s@, i as int) == match unquote(s@, j as int) {
                Some((v, n)) => Some((value@ + v, n)),
                None => None,
            },
        decreases s.len() - j,
    {
        if j >= s.len() {
            return None;
        }
        let b: u8 = s[j];
        if b == QUOTE {
            assert(value@ + Seq::<u8>::empty() =~= value@);
            return Some((value, j + 1));
        }
        if b == BACKSLASH {
            if j + 1 >= s.len() {
                return None;
            }
            let ghost before = value@;
            value.push(s[j + 1]);
            proof {
                match unquote(s@, j + 2) {
                    Some((v, n)) => {
                        assert(before + (seq![s@[j + 1]] + v) =~= value@ + v);
                    },
                    None => {},
                }
            }
            j = j + 2;
        } else {
            let ghost before = value@;
            value.push(b);
            proof {
                match unquote(s@, j + 1) {
                    Some((v, n)) => {
                        assert(before + (seq![b] + v) =~= value@ + v);
                    },
                    None => {},
                }
            }
            j = j + 1;
        }
    }
}

/// The fields written in `s` from index `i` on.
pub fn read_fields(s: &Vec<u8>, i: usize) -> (r: Option<Vec<Field>>)
    requires
        i <= s.len(),
    ensures
        match r {
            Some(f) => fields_from(s@, i as int) == Some(field_pairs(f@)),
            None => fields_from(s@, i as int) is None,
        },
{
    let mut fields: Vec<Field> = Vec::new();
    let mut at: usize = i;
    loop
        invariant
            i <= at <= s.len(),
            fields_from(s@, i as int) == match fields_from(s@, at as int) {
                Some(rest) => Some(field_pairs(fields@) + rest),
                None => None,
            },
        decreases s.len() - at,
    {
        let k = after_spaces(s, at);
        let eq = position(s, EQUALS, k);
        if eq >= s.len() || eq == k || eq + 1 >= s.len() || s[eq + 1] != QUOTE {
            return None;
        }
        match read_quoted(s, eq + 2) {
            None => {
                return None;
            },
            Some((value, n)) => {
                proof {
                    lemma_unquote(s@, eq + 2);
                }
                let m = after_spaces(s, n);
                let ghost before = field_pairs(fields@);
                let ghost first = seq![(s@.subrange(k as int, eq as int), value@)];
                fields.push(Field { key: copy_range(s, k, eq), value });
                assert(field_pairs(fields@) =~= before + first);
                if m >= s.len() {
                    return Some(fields);
                }
                if s[m] != COMMA {
                    return None;
                }
                proof {
                    match fields_from(s@, m + 1) {
                        Some(rest) => {
                            assert(before + (first + rest) =~= field_pairs(fields@) + rest);
                        },
                        None => {},
                    }
                }
                at = m + 1;
            },
        }
    }
}

/// The value of the first field of the given key, if any.
pub fn lookup(fields: &Vec<Field>, key: &Vec<u8>) -> (r: Option<Vec<u8>>)
    ensures
        header_owned(r) == field_value(field_pairs(fields@), key@),
{
    let mut i: usize = 0;
    assert(field_pairs(fields@).subrange(0, fields@.len() as int) =~= field_pairs(fields@));
    while i < fields.len()
        invariant
            i <= fields.len(),
            field_value(field_pairs(fields@), key@) == field_value(
                field_pairs(fields@).subrange(i as int, fields@.len() as int),
                key@,
            ),
        decreases fields.len() - i,
    {
        let ghost rest = field_pairs(fields@).subrange(i as int, fields@.len() as int);
        assert(rest[0] == field_pairs(fields@)[i as int]);
        assert(rest.drop_first() =~= field_pairs(fields@).subrange(i + 1, fields@.len() as int));
        if bytes_eq(&fields[i].key, key) {
            return Some(fields[i].value.clone());
        }
        i = i + 1;
    }
    None
}

/// Reads what a `WWW-Authenticate` value asks for.
pub fn parse_challenge(header: &Vec<u8>) -> (r: Result<Challenge, ChallengeError>)
    ensures
        match r {
            Ok(c) => challenge_of(header@) == Ok::<_, ChallengeError>(c@),
            Err(e) => challenge_of(header@) == Err::<ChallengeView, _>(e),
        },
{
    proof {
        reveal_strlit("bearer");
        reveal_strlit("basic");
        reveal_strlit("realm");
        reveal_strlit("service");
        reveal_strlit("scope");
    }
    let end = position(header, SPACE, 0);
    let scheme = to_lower(&copy_range(header, 0, end));
    let start = after_spaces(header, end);
    let is_basic = bytes_eq(&scheme, &ascii_bytes("basic"));
    if !is_basic && !bytes_eq(&scheme, &ascii_bytes("bearer")) {
        return Err(ChallengeError::UnknownScheme);
    }
    let fields: Vec<Field> = if start >= header.len() {
        let none: Vec<Field> = Vec::new();
        assert(field_pairs(none@) =~= Seq::empty());
        none
    } else {
        match read_fields(header, start) {
            Some(f) => f,
            None => {
                return Err(ChallengeError::Malformed);
            },
        }
    };
    let realm = lookup(&fields, &ascii_bytes("realm"));
    if is_basic {
        return Ok(Challenge::Basic { realm });
    }
    match realm {
        None => Err(ChallengeError::MissingRealm),
        Some(realm) => Ok(
            Challenge::Bearer {
                realm,
                service: lookup(&fields, &ascii_bytes("service")),
                scope: lookup(&fields, &ascii_bytes("scope")),
            },
        ),
    }
}

/// Whether a byte stands for itself in a query: a letter, a digit, `*`, `-`,
/// `.` or `_`.
pub open spec fn query_safe(b: u8) -> bool {
    (48 <= b <= 57) || (65 <= b <= 90) || (97 <= b <= 122) || b == 42 || b == 45 || b == 46 || b
        == 95
}

/// The upper-case hexadecimal digit for a value below 16.
pub open spec fn upper_hex_digit(n: u8) -> u8 {
    if n < 10 {
        (48 + n) as u8
    } else {
        (55 + n) as u8
    }
}

/// How one byte is written in a query: itself where it is safe, `+` for a
/// space, and `%` with its two upper-case hexadecimal digits else.
pub open spec fn query_byte(b: u8) -> Seq<u8> {
    if query_safe(b) {
        seq![b]
    } else if b == SPACE {
        seq![43u8]
    } else {
        seq![37u8, upper_hex_digit(b / 16), upper_hex_digit(b % 16)]
    }
}

/// How a text is written as a value in a query.
pub open spec fn query_encoded(s: Seq<u8>) -> Seq<u8>
    decreases s.len(),
{
    if s.len() == 0 {
        Seq::empty()
    } else {
        query_encoded(s.drop_last()) + query_byte(s.last())
    }
}

/// Writes a text as a value in a query.
pub fn query_encode(s: &Vec<u8>) -> (r: Vec<u8>)
    ensures
        r@ == query_encoded(s@),
{
    let mut r: Vec<u8> = Vec::new();
    let mut i: usize = 0;
    while i < s.len()
        invariant
            i <= s.len(),
            r@ == query_encoded(s@.subrange(0, i as int)),
        decreases s.len() - i,
    {
        let b: u8 = s[i];
        let ghost before = r@;
        if (48 <= b && b <= 57) || (65 <= b && b <= 90) || (97 <= b && b <= 122) || b == 42 || b
            == 45 || b == 46 || b == 95 {
            r.push(b);
        } else if b == SPACE {
            r.push(43);
        } else {
            let high: u8 = b / 16;
            let low: u8 = b % 16;
            r.push(37);
            r.push(if high < 10 { 48 + high } else { 55 + high });
            r.push(if low < 10 { 48 + low } else { 55 + low });
        }
        proof {
            let next = s@.subrange(0, i + 1);
            assert(next.drop_last() =~= s@.subrange(0, i as int));
            assert(next.last() == b);
            assert(r@ =~= before + query_byte(b));
        }
        i = i + 1;
    }
    assert(s@.subrange(0, s@.len() as int) =~= s@);
    r
}

/// The scopes that a token is asked for: those that the caller asks for, or,
/// where the caller asks for none, the one of the challenge, if it names one.
pub open spec fn effective_scopes(requested: Seq<Seq<u8>>, challenged: Option<Seq<u8>>) -> Seq<
    Seq<u8>,
> {
    if requested.len() > 0 {
        requested
    } else {
        match challenged {
            Some(s) => seq![s],
            None => Seq::empty(),
        }
    }
}

/// The parameters of a token request, each as `key=value` with the value
/// written for a query: the service where the challenge names one, then each
/// scope, then the account where the client has a user name.
pub open spec fn token_params(
    service: Option<Seq<u8>>,
    scopes: Seq<Seq<u8>>,
    account: Option<Seq<u8>>,
) -> Seq<Seq<u8>> {
    (match service {
        Some(s) => seq![ascii("service="@) + query_encoded(s)],
        None => Seq::empty(),
    }) + Seq::new(scopes.len(), |i: int| ascii("scope="@) + query_encoded(scopes[i])) + (match account {
        Some(a) => seq![ascii("account="@) + query_encoded(a)],
        None => Seq::empty(),
    })
}

/// A URL with parameters added to it: the first after `?`, or after `&` where
/// the URL holds a `?` already, and each other after `&`.
pub open spec fn with_params(url: Seq<u8>, params: Seq<Seq<u8>>) -> Seq<u8>
    decreases params.len(),
{
    if params.len() == 0 {
        url
    } else {
        let before = with_params(url, params.drop_last());
        before + seq![
            if holds(before, 63) {
                38u8
            } else {
                63u8
            },
        ] + params.last()
    }
}

/// The URL at which a token is asked for.
pub open spec fn token_url(
    realm: Seq<u8>,
    service: Option<Seq<u8>>,
    challenged: Option<Seq<u8>>,
    requested: Seq<Seq<u8>>,
    account: Option<Seq<u8>>,
) -> Seq<u8> {
    with_params(realm, token_params(service, effective_scopes(requested, challenged), account))
}

/// Texts as sequences of bytes.
pub open spec fn texts(items: Seq<Vec<u8>>) -> Seq<Seq<u8>> {
    Seq::new(items.len(), |i: int| items[i]@)
}

/// Adds one parameter to a URL.
fn add_param(url: &mut Vec<u8>, key: &str, value: &Vec<u8>)
    requires
        key.is_ascii(),
    ensures
        final(url)@ == with_params(old(url)@, seq![ascii(key@) + query_encoded(value@)]),
{
    let ghost before = url@;
    let ghost param = ascii(key@) + query_encoded(value@);
    let mark = position(url, 63, 0);
    if mark < url.len() {
        url.push(38);
    } else {
        url.push(63);
    }
    let mut key_bytes = ascii_bytes(key);
    url.append(&mut key_bytes);
    let mut encoded = query_encode(value);
    url.append(&mut encoded);
    proof {
        let params = seq![param];
        assert(params.drop_last() =~= Seq::<Seq<u8>>::empty());
        assert(with_params(before, params.drop_last()) == before);
        assert(params.last() == param);
        assert(url@ =~= with_params(before, params));
    }
}

/// Adding parameters one after the other adds them all.
pub proof fn lemma_with_params_push(url: Seq<u8>, params: Seq<Seq<u8>>, last: Seq<u8>)
    ensures
        with_params(url, params.push(last)) == with_params(with_params(url, params), seq![last]),
{
    let all = params.push(last);
    assert(all.drop_last() =~= params);
    assert(seq![last].drop_last() =~= Seq::<Seq<u8>>::empty());
    assert(with_params(with_params(url, params), seq![last].drop_last()) == with_params(
        url,
        params,
    ));
}

/// The URL at which a token is asked for.
pub fn token_request_url(
    realm: &Vec<u8>,
    service: Option<&Vec<u8>>,
    challenged: Option<&Vec<u8>>,
    requested: &Vec<Vec<u8>>,
    account: Option<&Vec<u8>>,
) -> (r: Vec<u8>)
    ensures
        r@ == token_url(
            realm@,
            header_view(service),
            header_view(challenged),
            texts(requested@),
            header_view(account),
        ),
{
    proof {
        reveal_strlit("service=");
        reveal_strlit("scope=");
        reveal_strlit("account=");
    }
    let ghost scopes = effective_scopes(texts(requested@), header_view(challenged));
    let ghost head: Seq<Seq<u8>> = match header_view(service) {
        Some(s) => seq![ascii("service="@) + query_encoded(s)],
        None => Seq::empty(),
    };
    let ghost scope_params = Seq::new(
        scopes.len(),
        |i: int| ascii("scope="@) + query_encoded(scopes[i]),
    );
    let mut url = realm.clone();
    match service {
        Some(s) => {
            add_param(&mut url, "service=", s);
        },
        None => {},
    }
    assert(url@ == with_params(realm@, head));
    if requested.len() > 0 {
        let mut i: usize = 0;
        while i < requested.len()
            invariant
                i <= requested.len(),
                scopes == texts(requested@),
                scope_params == Seq::new(
                    scopes.len(),
                    |k: int| ascii("scope="@) + query_encoded(scopes[k]),
                ),
                url@ == with_params(realm@, head + scope_params.subrange(0, i as int)),
            decreases requested.len() - i,
        {
            let ghost done = head + scope_params.subrange(0, i as int);
            proof {
                reveal_strlit("scope=");
            }
            add_param(&mut url, "scope=", &requested[i]);
            proof {
                lemma_with_params_push(realm@, done, scope_params[i as int]);
                assert(done.push(scope_params[i as int]) =~= head + scope_params.subrange(
                    0,
                    i + 1,
                ));
            }
            i = i + 1;
        }
        assert(scope_params.subrange(0, requested@.len() as int) =~= scope_params);
    } else {
        match challenged {
            Some(s) => {
                add_param(&mut url, "scope=", s);
                proof {
                    lemma_with_params_push(realm@, head, scope_params[0]);
                    assert(head.push(scope_params[0]) =~= head + scope_params);
                }
            },
            None => {
                assert(head + scope_params =~= head);
            },
        }
    }
    assert(url@ == with_params(realm@, head + scope_params));
    match account {
        Some(a) => {
            add_param(&mut url, "account=", a);
            proof {
                let last = ascii("account="@) + query_encoded(a@);
                lemma_with_params_push(realm@, head + scope_params, last);
                assert((head + scope_params).push(last) =~= token_params(
                    header_view(service),
                    scopes,
                    header_view(account),
                ));
            }
        },
        None => {
            assert(head + scope_params =~= token_params(
                header_view(service),
                scopes,
                header_view(account),
            ));
        },
    }
    url
}

/// What a session presents with each request.
#[derive(Debug, Clone)]
pub enum Credential {
    /// Nothing: the registry asks for no credentials.
    Anonymous,
    /// A user name and a password.
    Basic { username: Vec<u8>, password: Vec<u8> },
    /// A token.
    Bearer { token: Vec<u8> },
}

/// A `Credential` as a mathematical value.
pub enum CredentialView {
    Anonymous,
    Basic { username: Seq<u8>, password: Seq<u8> },
    Bearer { token: Seq<u8> },
}

impl View for Credential {
    type V = CredentialView;

    open spec fn view(&self) -> CredentialView {
        match self {
            Credential::Anonymous => CredentialView::Anonymous,
            Credential::Basic { username, password } => CredentialView::Basic {
                username: username@,
                password: password@,
            },
            Credential::Bearer { token } => CredentialView::Bearer { token: token@ },
        }
    }
}

/// Why no session was opened.
#[derive(Debug, Clone, Copy, PartialEq, Eq, Structural)]
pub enum AuthError {
    /// The registry does not speak version 2.
    NotSupported,
    /// The version probe came back with a status that has no reading.
    UnexpectedStatus(u16),
    /// The registry asks for credentials but sent no challenge.
    MissingChallenge,
    /// The challenge cannot be read.
    BadChallenge(ChallengeError),
    /// The registry asks for a user name and a password, and the client has
    /// not both.
    MissingCredentials,
    /// The token endpoint answered with a status outside 200 to 299.
    TokenRefused(u16),
    /// The answer of the token endpoint holds no token.
    MissingToken,
}

/// What the client is to do once the version probe is answered.
#[derive(Debug, Clone)]
pub enum AuthStep {
    /// The session is open, with this credential.
    Authenticated(Credential),
    /// A token is to be asked for at `url`, with the user name and the
    /// password where the client has both.
    RequestToken { url: Vec<u8>, username: Option<Vec<u8>>, password: Option<Vec<u8>> },
    /// No session can be opened.
    Failed(AuthError),
}

/// An `AuthStep` as a mathematical value.
pub enum AuthStepView {
    Authenticated(CredentialView),
    RequestToken { url: Seq<u8>, username: Option<Seq<u8>>, password: Option<Seq<u8>> },
    Failed(AuthError),
}

impl View for AuthStep {
    type V = AuthStepView;

    open spec fn view(&self) -> AuthStepView {
        match self {
            AuthStep::Authenticated(c) => AuthStepView::Authenticated(c@),
            AuthStep::RequestToken { url, username, password } => AuthStepView::RequestToken {
                url: url@,
                username: header_owned(*username),
                password: header_owned(*password),
            },
            AuthStep::Failed(e) => AuthStepView::Failed(*e),
        }
    }
}

/// What follows from the answer to the version probe.
///
/// A registry that asks for nothing is used without credentials. One that
/// asks for a user name and a password gets those of the client. One that
/// asks for a token sends the client to its realm: with the service of the
/// challenge, the scopes, and the user name as account where the client has
/// one; the user name and the password go with the request where the client
/// has both.
pub open spec fn after_probe_view(
    status: u16,
    api_version: Option<Seq<u8>>,
    www_authenticate: Option<Seq<u8>>,
    username: Option<Seq<u8>>,
    password: Option<Seq<u8>>,
    scopes: Seq<Seq<u8>>,
) -> AuthStepView {
    match probed(status, api_version) {
        Err(e) => AuthStepView::Failed(AuthError::UnexpectedStatus(e.status)),
        Ok(Probe::Unsupported) => AuthStepView::Failed(AuthError::NotSupported),
        Ok(Probe::Open) => AuthStepView::Authenticated(CredentialView::Anonymous),
        Ok(Probe::Challenged) => match www_authenticate {
            None => AuthStepView::Failed(AuthError::MissingChallenge),
            Some(h) => match challenge_of(h) {
                Err(e) => AuthStepView::Failed(AuthError::BadChallenge(e)),
                Ok(ChallengeView::Basic { realm }) => match (username, password) {
                    (Some(u), Some(p)) => AuthStepView::Authenticated(
                        CredentialView::Basic { username: u, password: p },
                    ),
                    _ => AuthStepView::Failed(AuthError::MissingCredentials),
                },
                Ok(ChallengeView::Bearer { realm, service, scope }) => AuthStepView::RequestToken {
                    url: token_url(realm, service, scope, scopes, username),
                    username: if password is Some {
                        username
                    } else {
                        None
                    },
                    password: if username is Some {
                        password
                    } else {
                        None
                    },
                },
            },
        },
    }
}

/// Decides what follows from the answer to the version probe.
pub fn after_probe(
    status: u16,
    api_version: Option<&Vec<u8>>,
    www_authenticate: Option<&Vec<u8>>,
    username: Option<&Vec<u8>>,
    password: Option<&Vec<u8>>,
    scopes: &Vec<Vec<u8>>,
) -> (r: AuthStep)
    ensures
        r@ == after_probe_view(
            status,
            header_view(api_version),
            header_view(www_authenticate),
            header_view(username),
            header_view(password),
            texts(scopes@),
        ),
{
    let probe = match probe(status, api_version) {
        Ok(p) => p,
        Err(e) => {
            return AuthStep::Failed(AuthError::UnexpectedStatus(e.status));
        },
    };
    match probe {
        Probe::Unsupported => AuthStep::Failed(AuthError::NotSupported),
        Probe::Open => AuthStep::Authenticated(Credential::Anonymous),
        Probe::Challenged => {
            let header = match www_authenticate {
                Some(h) => h,
                None => {
                    return AuthStep::Failed(AuthError::MissingChallenge);
                },
            };
            match parse_challenge(header) {
                Err(e) => AuthStep::Failed(AuthError::BadChallenge(e)),
                Ok(Challenge::Basic { realm }) => match (username, password) {
                    (Some(u), Some(p)) => AuthStep::Authenticated(
                        Credential::Basic { username: u.clone(), password: p.clone() },
                    ),
                    _ => AuthStep::Failed(AuthError::MissingCredentials),
                },
                Ok(Challenge::Bearer { realm, service, scope }) => {
                    let url = token_request_url(
                        &realm,
                        service.as_ref(),
                        scope.as_ref(),
                        scopes,
                        username,
                    );
                    match (username, password) {
                        (Some(u), Some(p)) => AuthStep::RequestToken {
                            url,
                            username: Some(u.clone()),
                            password: Some(p.clone()),
                        },
                        _ => AuthStep::RequestToken { url, username: None, password: None },
                    }
                },
            }
        },
    }
}

/// The credential that the answer of the token endpoint gives: the token it
/// holds as `token`, or else as `access_token`, where its status lies in 200
/// to 299.
pub open spec fn token_granted(
    status: u16,
    token: Option<Seq<u8>>,
    access_token: Option<Seq<u8>>,
) -> Result<CredentialView, AuthError> {
    if !(200 <= status <= 299) {
        Err(AuthError::TokenRefused(status))
    } else {
        match (token, access_token) {
            (Some(t), _) => Ok(CredentialView::Bearer { token: t }),
            (None, Some(t)) => Ok(CredentialView::Bearer { token: t }),
            (None, None) => Err(AuthError::MissingToken),
        }
    }
}

/// Decides on the answer of the token endpoint.
pub fn after_token(status: u16, token: Option<&Vec<u8>>, access_token: Option<&Vec<u8>>) -> (r:
    Result<Credential, AuthError>)
    ensures
        match r {
            Ok(c) => token_granted(status, header_view(token), header_view(access_token)) == Ok::<
                _,
                AuthError,
            >(c@),
            Err(e) => token_granted(status, header_view(token), header_view(access_token)) == Err::<
                CredentialView,
                _,
            >(e),
        },
{
    if status < 200 || status > 299 {
        return Err(AuthError::TokenRefused(status));
    }
    match (token, access_token) {
        (Some(t), _) => Ok(Credential::Bearer { token: t.clone() }),
        (None, Some(t)) => Ok(Credential::Bearer { token: t.clone() }),
        (None, None) => Err(AuthError::MissingToken),
    }
}

/// Whether a session that was refused with 401 authenticates once more: it
/// does after the first refusal of a request, and not after the second.
pub fn retries_after_unauthorized(refusals: u32) -> (r: bool)
    ensures
        r == (refusals == 1),
{
    refusals == 1
}

/// The value of `Authorization` for a token: `Bearer `, then the token.
pub open spec fn bearer_header(token: Seq<u8>) -> Seq<u8> {
    ascii("Bearer "@) + token
}

/// The value of `Authorization` for a token.
pub fn bearer_authorization(token: &Vec<u8>) -> (r: Vec<u8>)
    ensures
        r@ == bearer_header(token@),
{
    proof {
        reveal_strlit("Bearer ");
    }
    join(&ascii_bytes("Bearer "), token)
}

} // verus!
