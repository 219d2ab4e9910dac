use vstd::prelude::*;
use vstd::utf8::encode_utf8;
use crate::error::ConfigError;

verus! {

/// `url::Url`: a parsed URL. All that the library reads of one is its text.
#[verifier::external_type_specification]
#[verifier::external_body]
pub struct ExUrl(url::Url);

/// `url::ParseError`: why a text is no URL.
#[verifier::external_type_specification]
#[verifier::external_body]
pub struct ExParseError(url::ParseError);

/// The text that a URL holds, as `Url::as_str` gives it.
pub uninterp spec fn url_text(u: url::Url) -> Seq<char>;

/// The text of the URL that `Url::parse` makes of `input`, or `None` where it refuses.
pub uninterp spec fn url_parsed(input: Seq<char>) -> Option<Seq<char>>;

/// The text of a URL after its query is emptied, given its text before.
pub uninterp spec fn url_cleared(text: Seq<char>) -> Seq<char>;

/// The text of a URL after one more name and value are appended to its query, given its
/// text before.
pub uninterp spec fn url_with_pair(text: Seq<char>, name: Seq<char>, value: Seq<char>) -> Seq<char>;

/// The number of bytes that `s` takes as UTF-8.
pub open spec fn utf8_len(s: Seq<char>) -> nat {
    encode_utf8(s).len()
}

/// The longest text, in bytes, that a URL can hold.
pub open spec fn max_url_len() -> nat {
    0xFFFF_FFFF
}

/// `Url::parse`: the URL that `input` is, or the parser's refusal. The text of the URL
/// depends on `input` alone.
#[verifier::external_body]
fn parse_url(input: &str) -> (r: Result<url::Url, url::ParseError>)
    ensures
        match r {
            Ok(u) => url_parsed(input@) == Some(url_text(u)),
            Err(_) => url_parsed(input@) is None,
        },
{
    url::Url::parse(input)
}

/// `Url::query_pairs_mut` and `Serializer::clear` on it: cuts the query down to nothing.
/// The text afterwards depends on the text before alone. The crate keeps positions in 32
/// bits and panics beyond: the text must leave room for one more byte.
#[verifier::external_body]
fn clear_pairs(u: &mut url::Url)
    requires
        utf8_len(url_text(*old(u))) < max_url_len(),
    ensures
        url_text(*final(u)) == url_cleared(url_text(*old(u))),
{
    u.query_pairs_mut().clear();
}

/// `Url::query_pairs_mut` and `Serializer::append_pair` on it: appends `name=value` to the
/// query, both encoded as in a form, behind a `&` where the query is not empty. The text
/// afterwards depends on the text before and on the two strings alone. The crate keeps
/// positions in 32 bits and panics beyond: each byte of the two strings takes at most
/// three bytes, and three separators may come.
#[verifier::external_body]
fn append_pair(u: &mut url::Url, name: &str, value: &str)
    requires
        utf8_len(url_text(*old(u))) + 3 * (utf8_len(name@) + utf8_len(value@)) + 3
            <= max_url_len(),
    ensures
        url_text(*final(u)) == url_with_pair(url_text(*old(u)), name@, value@),
{
    u.query_pairs_mut().append_pair(name, value);
}

/// `Url::as_str`: the text of the URL.
#[verifier::external_body]
fn as_str(u: &url::Url) -> (s: &str)
    ensures
        s@ == url_text(*u),
{
    u.as_str()
}

/// The names and values of `pairs`, as texts.
pub open spec fn pairs_view(pairs: Seq<(String, String)>) -> Seq<(Seq<char>, Seq<char>)> {
    Seq::new(pairs.len(), |i: int| (pairs[i].0@, pairs[i].1@))
}

/// The text of a URL after `pairs` are appended to its query, in order.
pub open spec fn url_with_pairs(text: Seq<char>, pairs: Seq<(Seq<char>, Seq<char>)>) -> Seq<char>
    decreases pairs.len(),
{
    if pairs.len() == 0 {
        text
    } else {
        url_with_pair(url_with_pairs(text, pairs.drop_last()), pairs.last().0, pairs.last().1)
    }
}

/// Whether `pairs` can be appended to a URL of this text, one after the other, with room
/// to spare at each step.
pub open spec fn pairs_fit(text: Seq<char>, pairs: Seq<(Seq<char>, Seq<char>)>) -> bool
    decreases pairs.len(),
{
    if pairs.len() == 0 {
        true
    } else {
        &&& pairs_fit(text, pairs.drop_last())
        &&& utf8_len(url_with_pairs(text, pairs.drop_last())) + 3 * (utf8_len(pairs.last().0)
            + utf8_len(pairs.last().1)) + 3 <= max_url_len()
    }
}

/// The URL of a request: `base` parsed, its own query dropped, `pairs` appended.
pub open spec fn request_url(base: Seq<char>, pairs: Seq<(Seq<char>, Seq<char>)>) -> Result<
    Seq<char>,
    ConfigError,
> {
    match url_parsed(base) {
        None => Err(ConfigError::Url),
        Some(text) => if utf8_len(text) >= max_url_len() || !pairs_fit(url_cleared(text), pairs) {
            Err(ConfigError::UrlTooLong)
        } else {
            Ok(url_with_pairs(url_cleared(text), pairs))
        },
    }
}

/// Whether a URL of `len` bytes has room for `name` and `value`.
fn has_room(len: usize, name: &str, value: &str) -> (r: bool)
    ensures
        r == (len + 3 * (utf8_len(name@) + utf8_len(value@)) + 3 <= max_url_len()),
{
    let need: u128 = 3 * (name.as_bytes().len() as u128 + value.as_bytes().len() as u128) + 3
        + len as u128;
    need <= 0xFFFF_FFFF
}

/// Builds the URL of a request: parses `base`, drops the query it came with and appends
/// `pairs` in order. Fails where `base` is no URL, and where the URL would not fit.
pub fn build_url(base: &str, pairs: &Vec<(String, String)>) -> (r: Result<String, ConfigError>)
    ensures
        match request_url(base@, pairs_view(pairs@)) {
            Ok(text) => r is Ok && r->Ok_0@ == text,
            Err(e) => r == Err::<String, ConfigError>(e),
        },
{
    let mut url = match parse_url(base) {
        Ok(url) => url,
        Err(_) => {
            return Err(ConfigError::Url);
        },
    };
    if as_str(&url).as_bytes().len() >= 0xFFFF_FFFF {
        return Err(ConfigError::UrlTooLong);
    }
    let ghost parsed = url_text(url);
    clear_pairs(&mut url);
    let ghost start = url_text(url);
    let ghost all = pairs_view(pairs@);
    let mut i: usize = 0;
    while i < pairs.len()
        invariant
            i <= pairs.len(),
            all == pairs_view(pairs@),
            url_parsed(base@) == Some(parsed),
            utf8_len(parsed) < max_url_len(),
            start == url_cleared(parsed),
            pairs_fit(start, all.take(i as int)),
            url_text(url) == url_with_pairs(start, all.take(i as int)),
        decreases pairs.len() - i,
    {
        let name = pairs[i].0.as_str();
        let value = pairs[i].1.as_str();
        proof {
            assert(all.take(i + 1).drop_last() =~= all.take(i as int));
            assert(all.take(i + 1).last() == (name@, value@));
            if pairs_fit(start, all) {
                lemma_fit_is_prefix_closed(start, all, i + 1);
            }
        }
        if !has_room(as_str(&url).as_bytes().len(), name, value) {
            return Err(ConfigError::UrlTooLong);
        }
        append_pair(&mut url, name, value);
        i += 1;
    }
    proof {
        assert(all.take(pairs.len() as int) =~= all);
    }
    Ok(as_str(&url).to_owned())
}

/// Pairs that fit as a whole fit up to any point.
proof fn lemma_fit_is_prefix_closed(text: Seq<char>, pairs: Seq<(Seq<char>, Seq<char>)>, n: int)
    requires
        0 <= n <= pairs.len(),
        pairs_fit(text, pairs),
    ensures
        pairs_fit(text, pairs.take(n)),
    decreases pairs.len(),
{
    if n == pairs.len() {
        assert(pairs.take(n) =~= pairs);
    } else {
        lemma_fit_is_prefix_closed(text, pairs.drop_last(), n);
        assert(pairs.drop_last().take(n) =~= pairs.take(n));
    }
}

} // verus!
