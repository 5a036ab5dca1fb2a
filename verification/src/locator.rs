//! Canonical keys of remote-origin locators.
//!
//! A locator is URL-shaped text. Its canonical key is the serialization of the
//! parsed URL without query and fragment, with every leading `git+` removed.
//! Parsing and the two setters are the `url` crate's; what they compute is
//! named here and not defined, beside the facts that no query and no `#` is
//! left.

use url::{ParseError, Url};
use vstd::prelude::*;
use vstd::string::*;

verus! {

/// `url::Url`, a parsed URL record. Nothing inside it is visible to proofs;
/// its serialization is spoken of through `url_text`.
#[verifier::external_type_specification]
#[verifier::external_body]
pub struct ExUrl(url::Url);

/// `url::ParseError`, the reason why a text is no absolute URL.
#[verifier::external_type_specification]
#[verifier::external_body]
pub struct ExParseError(url::ParseError);

/// The serialization that a parsed URL holds.
pub uninterp spec fn url_text(url: Url) -> Seq<char>;

/// The offsets that a `Url` keeps beside its serialization agree with it:
/// the scheme ends at the first `:`, the fragment starts at the first `#`,
/// and the query starts at the first `?` where that stands before every `#`.
/// `Url::parse` builds such values. A setter that writes an opaque path can
/// leave a `?` or `#` in the text that no offset points at; of such a value
/// the contracts below say nothing.
pub uninterp spec fn offsets_follow_text(url: Url) -> bool;

/// What `Url::parse` makes of a text: the serialization of the URL it
/// builds, or the error it reports.
pub uninterp spec fn parse_outcome(input: Seq<char>) -> Result<Seq<char>, ParseError>;

/// The serialization that `Url::set_query(None)` leaves, given the one
/// before, in a URL whose offsets follow its text.
pub uninterp spec fn text_without_query(text: Seq<char>) -> Seq<char>;

/// The serialization that `Url::set_fragment(None)` leaves, given the one
/// before, in a URL whose offsets follow its text.
pub uninterp spec fn text_without_fragment(text: Seq<char>) -> Seq<char>;

/// The text holds no query: no `?` stands in it before the first `#`.
pub open spec fn holds_no_query(text: Seq<char>) -> bool {
    forall|i: int|
        0 <= i < text.len() && text[i] == '?' ==> exists|j: int| 0 <= j < i && text[j] == '#'
}

/// The text holds neither `?` nor `#`: no query and no fragment can be read
/// from it.
pub open spec fn is_bare(text: Seq<char>) -> bool {
    !text.contains('?') && !text.contains('#')
}

/// `Url::parse`: the claim is that parsing depends on the input text alone,
/// so that the URL's serialization, or the error, is `parse_outcome` of that
/// text, and that the offsets of the URL it builds follow its text. Which
/// texts parse, and to what, stays unsaid.
pub assume_specification[ Url::parse ](input: &str) -> (r: Result<Url, ParseError>)
    ensures
        match r {
            Ok(url) => parse_outcome(input@) == Ok::<Seq<char>, ParseError>(url_text(url))
                && offsets_follow_text(url),
            Err(e) => parse_outcome(input@) == Err::<Seq<char>, ParseError>(e),
        },
;

/// `Url::set_query` with `None`, on a URL whose offsets follow its text:
/// cuts the text from the query's `?` up to the fragment's `#` or the end, so
/// that no query is left, and keeps the offsets in step. The setter reads
/// nothing but the text and those offsets, so the text it leaves depends on
/// the text before alone. With `Some` it can panic on a URL near 4 GB, so
/// only `None` is admitted.
pub assume_specification[ Url::set_query ](url: &mut Url, query: Option<&str>)
    requires
        query is None,
        offsets_follow_text(*old(url)),
    ensures
        offsets_follow_text(*final(url)),
        url_text(*final(url)) == text_without_query(url_text(*old(url))),
        holds_no_query(url_text(*final(url))),
;

/// `Url::set_fragment` with `None`, on a URL whose offsets follow its text:
/// cuts the text at the fragment's `#`, so that what is left is a prefix of
/// the text before and holds no `#`, and keeps the offsets in step. The
/// setter reads nothing but the text and those offsets, so the text it
/// leaves depends on the text before alone. With `Some` it can panic on a
/// URL near 4 GB, so only `None` is admitted.
pub assume_specification[ Url::set_fragment ](url: &mut Url, fragment: Option<&str>)
    requires
        fragment is None,
        offsets_follow_text(*old(url)),
    ensures
        offsets_follow_text(*final(url)),
        url_text(*final(url)) == text_without_fragment(url_text(*old(url))),
        url_text(*final(url)).is_prefix_of(url_text(*old(url))),
        !url_text(*final(url)).contains('#'),
;

/// `Url::as_str`: hands out the stored serialization.
pub assume_specification<'a>[ Url::as_str ](url: &'a Url) -> (text: &'a str)
    ensures
        text@ == url_text(*url),
;

/// The transport marker of a git locator.
pub open spec fn git_prefix() -> Seq<char> {
    seq!['g', 'i', 't', '+']
}

/// `text` with every leading repetition of `prefix` removed.
pub open spec fn trimmed_start(text: Seq<char>, prefix: Seq<char>) -> Seq<char>
    decreases text.len(),
{
    if prefix.len() > 0 && prefix.is_prefix_of(text) {
        trimmed_start(text.skip(prefix.len() as int), prefix)
    } else {
        text
    }
}

/// Whether `prefix` occurs in `text` at char position `start`.
fn matches_at(text: &str, start: usize, prefix: &str) -> (r: bool)
    requires
        start <= text@.len(),
    ensures
        r == prefix@.is_prefix_of(text@.skip(start as int)),
{
    let n = text.unicode_len();
    let m = prefix.unicode_len();
    if m > n - start {
        return false;
    }
    let mut j: usize = 0;
    while j < m
        invariant
            j <= m,
            m == prefix@.len(),
            n == text@.len(),
            start <= n,
            m <= n - start,
            forall|k: int| 0 <= k < j ==> prefix@[k] == text@[start + k],
        decreases m - j,
    {
        if prefix.get_char(j) != text.get_char(start + j) {
            assert(prefix@[j as int] != text@.skip(start as int)[j as int]);
            return false;
        }
        j += 1;
    }
    assert(prefix@ =~= text@.skip(start as int).subrange(0, m as int));
    true
}

/// Removes every leading repetition of `prefix` from `text`. An empty prefix
/// removes nothing.
pub fn trim_start_matches<'a>(text: &'a str, prefix: &str) -> (r: &'a str)
    ensures
        r@ == trimmed_start(text@, prefix@),
{
    let n = text.unicode_len();
    let m = prefix.unicode_len();
    if m == 0 {
        return text;
    }
    let mut start: usize = 0;
    assert(text@.skip(0) =~= text@);
    loop
        invariant
            start <= n,
            n == text@.len(),
            m == prefix@.len(),
            m > 0,
            trimmed_start(text@, prefix@) == trimmed_start(text@.skip(start as int), prefix@),
        ensures
            !prefix@.is_prefix_of(text@.skip(start as int)),
        decreases n - start,
    {
        if !matches_at(text, start, prefix) {
            break;
        }
        assert(text@.skip(start as int).skip(m as int) =~= text@.skip(start + m));
        start += m;
    }
    assert(text@.skip(start as int) =~= text@.subrange(start as int, n as int));
    text.substring_char(start, n)
}

/// Whether a raw locator is marked as git transport.
pub fn has_git_prefix(locator: &str) -> (r: bool)
    ensures
        r == git_prefix().is_prefix_of(locator@),
{
    proof {
        reveal_strlit("git+");
        assert("git+"@ =~= git_prefix());
        assert(locator@.skip(0) =~= locator@);
    }
    matches_at(locator, 0, "git+")
}

/// The canonical key that a URL's serialization stands for: the
/// serialization without its leading `git+` markers.
pub fn strip_git_prefix(serialization: &str) -> (key: String)
    ensures
        key@ == trimmed_start(serialization@, git_prefix()),
{
    proof {
        reveal_strlit("git+");
        assert("git+"@ =~= git_prefix());
    }
    trim_start_matches(serialization, "git+").to_owned()
}

/// The serialization of the URL that `input` parses to, once query and
/// fragment are cleared; the parse error where `input` is no absolute URL.
pub open spec fn canonical_text(input: Seq<char>) -> Result<Seq<char>, ParseError> {
    match parse_outcome(input) {
        Ok(text) => Ok(text_without_fragment(text_without_query(text))),
        Err(e) => Err(e),
    }
}

/// The canonical key of a locator, or the reason why it has none.
pub open spec fn normalized_locator(input: Seq<char>) -> Result<Seq<char>, ParseError> {
    match canonical_text(input) {
        Ok(text) => Ok(trimmed_start(text, git_prefix())),
        Err(e) => Err(e),
    }
}

/// Parses a locator as a URL, clears query and fragment and hands out the
/// serialization that is left. It holds no `?` and no `#`. Fails exactly
/// when the locator does not parse.
pub fn canonical_serialization(s: &str) -> (r: Result<String, ParseError>)
    ensures
        match r {
            Ok(text) => canonical_text(s@) == Ok::<Seq<char>, ParseError>(text@) && is_bare(text@),
            Err(e) => canonical_text(s@) == Err::<Seq<char>, ParseError>(e),
        },
{
    let mut url = match Url::parse(s) {
        Ok(url) => url,
        Err(e) => {
            return Err(e);
        },
    };
    url.set_query(None);
    let ghost cleared = url_text(url);
    url.set_fragment(None);
    let text = url.as_str().to_owned();
    proof {
        assert forall|i: int| 0 <= i < text@.len() implies text@[i] != '?' by {
            if text@[i] == '?' {
                assert(cleared[i] == '?');
                let j = choose|j: int| 0 <= j < i && cleared[j] == '#';
                assert(text@[j] == '#');
            }
        }
    }
    Ok(text)
}

/// Canonicalizes a remote-origin locator: parses it as a URL, clears query
/// and fragment, and strips the leading `git+` of the serialization. The key
/// holds no `?` and no `#`. Fails exactly when the locator does not parse.
pub fn strip_components_from_url(s: &str) -> (r: Result<String, ParseError>)
    ensures
        match r {
            Ok(key) => normalized_locator(s@) == Ok::<Seq<char>, ParseError>(key@) && is_bare(key@),
            Err(e) => normalized_locator(s@) == Err::<Seq<char>, ParseError>(e),
        },
{
    match canonical_serialization(s) {
        Ok(text) => {
            let key = strip_git_prefix(text.as_str());
            proof {
                lemma_trimmed_start_has_no_prefix(text@, git_prefix());
                let from = text@.len() - key@.len();
                assert forall|i: int| 0 <= i < key@.len() implies key@[i] != '?' && key@[i] != '#' by {
                    assert(key@[i] == text@[from + i]);
                }
            }
            Ok(key)
        },
        Err(e) => Err(e),
    }
}

/// Whether a text is canonical: it parses, and what is left of it once
/// query and fragment are cleared is the text itself.
pub fn is_canonical(text: &str) -> (r: bool)
    ensures
        r == (canonical_text(text@) == Ok::<Seq<char>, ParseError>(text@)),
{
    match canonical_serialization(text) {
        Ok(cleared) => cleared == text.to_owned(),
        Err(_) => false,
    }
}

/// The key of a locator where normalizing it again gives it back: `Some` of
/// the key exactly when the locator has a key and the key is canonical text,
/// `None` when the locator does not parse or the parser would alter the key.
pub fn stable_key(x: &str) -> (r: Option<String>)
    ensures
        r is Some <==> normalized_locator(x@) is Ok && canonical_text(normalized_locator(x@)->Ok_0)
            == Ok::<Seq<char>, ParseError>(normalized_locator(x@)->Ok_0),
        r matches Some(key) ==> normalized_locator(x@) == Ok::<Seq<char>, ParseError>(key@)
            && normalized_locator(key@) == Ok::<Seq<char>, ParseError>(key@) && is_bare(key@),
{
    match strip_components_from_url(x) {
        Ok(key) => {
            if is_canonical(key.as_str()) {
                proof {
                    lemma_normalize_idempotent(x@);
                }
                Some(key)
            } else {
                None
            }
        },
        Err(_) => None,
    }
}

/// What is left after trimming does not begin with the prefix, and is what
/// the text ends in.
pub proof fn lemma_trimmed_start_has_no_prefix(text: Seq<char>, prefix: Seq<char>)
    ensures
        prefix.len() > 0 ==> !prefix.is_prefix_of(trimmed_start(text, prefix)),
        trimmed_start(text, prefix).is_suffix_of(text),
    decreases text.len(),
{
    if prefix.len() > 0 && prefix.is_prefix_of(text) {
        let rest = text.skip(prefix.len() as int);
        lemma_trimmed_start_has_no_prefix(rest, prefix);
        let t = trimmed_start(rest, prefix);
        assert(t =~= text.subrange(text.len() - t.len(), text.len() as int)) by {
            assert(t =~= rest.subrange(rest.len() - t.len(), rest.len() as int));
        }
    } else {
        assert(text =~= text.subrange(0, text.len() as int));
    }
}

/// Trimming a second time changes nothing.
pub proof fn lemma_trimmed_start_idempotent(text: Seq<char>, prefix: Seq<char>)
    ensures
        trimmed_start(trimmed_start(text, prefix), prefix) == trimmed_start(text, prefix),
{
    lemma_trimmed_start_has_no_prefix(text, prefix);
}

/// Normalization is idempotent wherever its result is canonical text: if the
/// key of `x` parses, without query and fragment, to itself, then the key of
/// that key is the key again. A key that the parser would alter (a key
/// whose scheme only became special once `git+` was gone) is left out.
pub proof fn lemma_normalize_idempotent(x: Seq<char>)
    requires
        normalized_locator(x) is Ok,
        canonical_text(normalized_locator(x)->Ok_0) == Ok::<Seq<char>, ParseError>(
            normalized_locator(x)->Ok_0,
        ),
    ensures
        normalized_locator(normalized_locator(x)->Ok_0) == normalized_locator(x),
{
    lemma_trimmed_start_idempotent(canonical_text(x)->Ok_0, git_prefix());
}

} // verus!
