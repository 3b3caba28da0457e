//! The MusicBrainz search query and the web addresses built around it.

use vstd::prelude::*;
use vstd::utf8::*;

verus! {

/// MusicBrainz requires a descriptive User-Agent identifying the app + a
/// contact; an anonymous one is answered with `403`.
pub const USER_AGENT: &'static str =
    "WaveFlow-ReleaseRadar/0.1.0 ( https://github.com/InstaZDLL/waveflow-plugin-release-radar )";

// ----- artist names ---------------------------------------------------------

/// The characters with the Unicode property White_Space.
pub open spec fn white_space(c: char) -> bool {
    ||| '\u{9}' <= c <= '\u{d}'
    ||| c == '\u{20}'
    ||| c == '\u{85}'
    ||| c == '\u{a0}'
    ||| c == '\u{1680}'
    ||| '\u{2000}' <= c <= '\u{200a}'
    ||| c == '\u{2028}'
    ||| c == '\u{2029}'
    ||| c == '\u{202f}'
    ||| c == '\u{205f}'
    ||| c == '\u{3000}'
}

/// `s` without the white space at its two ends.
pub open spec fn trimmed(s: Seq<char>) -> Seq<char>
    decreases s.len(),
{
    if s.len() > 0 && white_space(s.first()) {
        trimmed(s.drop_first())
    } else if s.len() > 0 && white_space(s.last()) {
        trimmed(s.drop_last())
    } else {
        s
    }
}

/// `str::trim` gives back the text without the leading and trailing
/// characters that have the Unicode property White_Space.
pub assume_specification[ str::trim ](s: &str) -> (inner: &str)
    ensures
        inner@ == trimmed(s@),
;

/// What `str::to_lowercase` makes of a text: its lowercase form by Unicode's
/// rules, in which most characters are mapped each for itself, some to several
/// characters, and a capital sigma by what stands around it.
pub uninterp spec fn lowercase(s: Seq<char>) -> Seq<char>;

/// `str::to_lowercase` maps a text to its Unicode lowercase form, which
/// depends on the text alone.
pub assume_specification[ str::to_lowercase ](s: &str) -> (lower: String)
    ensures
        lower@ == lowercase(s@),
;

/// The form in which artist names are compared.
pub open spec fn normalized(s: Seq<char>) -> Seq<char> {
    lowercase(trimmed(s))
}

/// An artist name without surrounding white space and in lower case.
pub fn normalize(s: &str) -> (name: String)
    ensures
        name@ == normalized(s@),
{
    s.trim().to_lowercase()
}

// ----- percent encoding -----------------------------------------------------

/// The bytes that stand for themselves in a URL.
pub open spec fn unreserved(b: u8) -> bool {
    ||| 'A' as u8 <= b <= 'Z' as u8
    ||| 'a' as u8 <= b <= 'z' as u8
    ||| '0' as u8 <= b <= '9' as u8
    ||| b == '-' as u8
    ||| b == '_' as u8
    ||| b == '.' as u8
    ||| b == '~' as u8
}

/// The upper-case hexadecimal digit for `d`.
pub open spec fn hex_digit(d: u8) -> char {
    if d < 10 {
        (48 + d) as char
    } else {
        (55 + d) as char
    }
}

/// One byte in a URL.
pub open spec fn percent_byte(b: u8) -> Seq<char> {
    if unreserved(b) {
        seq![b as char]
    } else {
        seq!['%', hex_digit(b / 16), hex_digit(b % 16)]
    }
}

/// Bytes in a URL.
pub open spec fn percent_encoded(bytes: Seq<u8>) -> Seq<char>
    decreases bytes.len(),
{
    if bytes.len() == 0 {
        seq![]
    } else {
        percent_byte(bytes[0]) + percent_encoded(bytes.drop_first())
    }
}

fn is_unreserved(b: u8) -> (plain: bool)
    ensures
        plain == unreserved(b),
{
    ('A' as u8 <= b && b <= 'Z' as u8) || ('a' as u8 <= b && b <= 'z' as u8) || ('0' as u8 <= b && b
        <= '9' as u8) || b == '-' as u8 || b == '_' as u8 || b == '.' as u8 || b == '~' as u8
}

fn push_hex(out: &mut String, d: u8)
    requires
        d < 16,
    ensures
        final(out)@ == old(out)@.push(hex_digit(d)),
{
    if d < 10 {
        out.push((48 + d) as char);
    } else {
        out.push((55 + d) as char);
    }
}

/// Percent-encode a Lucene query for the `query=` URL parameter. The URL is
/// sent verbatim, so anything outside the unreserved set is escaped;
/// MusicBrainz decodes it back before parsing the Lucene syntax.
pub fn encode_query(s: &str) -> (encoded: String)
    ensures
        encoded@ == percent_encoded(encode_utf8(s@)),
{
    let bytes = s.as_bytes();
    let mut out = String::new();
    let mut i: usize = 0;
    assert(bytes@.skip(0) =~= bytes@);
    while i < bytes.len()
        invariant
            i <= bytes@.len(),
            out@ + percent_encoded(bytes@.skip(i as int)) =~= percent_encoded(bytes@),
        decreases bytes@.len() - i,
    {
        let b: u8 = bytes[i];
        let ghost before = out@;
        if is_unreserved(b) {
            out.push(b as char);
        } else {
            out.push('%');
            push_hex(&mut out, b / 16);
            push_hex(&mut out, b % 16);
        }
        proof {
            assert(out@ =~= before + percent_byte(b));
            assert(bytes@.skip(i as int).drop_first() =~= bytes@.skip(i + 1));
        }
        i = i + 1;
    }
    out
}

/// The value of a hexadecimal digit.
pub open spec fn hex_value(c: char) -> u8 {
    if '0' <= c <= '9' {
        (c as u8 - 48) as u8
    } else {
        (c as u8 - 55) as u8
    }
}

/// The bytes that a percent-encoded text stands for.
pub open spec fn percent_decoded(s: Seq<char>) -> Seq<u8>
    decreases s.len(),
{
    if s.len() == 0 {
        seq![]
    } else if s[0] == '%' && s.len() >= 3 {
        seq![(hex_value(s[1]) * 16 + hex_value(s[2])) as u8] + percent_decoded(s.skip(3))
    } else {
        seq![s[0] as u8] + percent_decoded(s.skip(1))
    }
}

/// Decoding gives back the bytes that were encoded.
pub proof fn percent_round_trip(bytes: Seq<u8>)
    ensures
        percent_decoded(percent_encoded(bytes)) == bytes,
    decreases bytes.len(),
{
    if bytes.len() > 0 {
        let rest = percent_encoded(bytes.drop_first());
        let s = percent_encoded(bytes);
        percent_round_trip(bytes.drop_first());
        if unreserved(bytes[0]) {
            assert(s.skip(1) =~= rest);
        } else {
            assert(s.skip(3) =~= rest);
        }
        assert(bytes =~= seq![bytes[0]] + bytes.drop_first());
    }
}

/// An encoded text holds nothing but unreserved characters and percent signs.
pub proof fn encoded_is_url_safe(bytes: Seq<u8>)
    ensures
        forall|i: int|
            0 <= i < percent_encoded(bytes).len() ==> {
                let c = #[trigger] percent_encoded(bytes)[i];
                c == '%' || (c as u32 <= 127 && unreserved(c as u8))
            },
    decreases bytes.len(),
{
    if bytes.len() > 0 {
        encoded_is_url_safe(bytes.drop_first());
        let head = percent_byte(bytes[0]);
        assert forall|i: int| 0 <= i < percent_encoded(bytes).len() implies {
            let c = #[trigger] percent_encoded(bytes)[i];
            c == '%' || (c as u32 <= 127 && unreserved(c as u8))
        } by {
            if i < head.len() {
                assert(percent_encoded(bytes)[i] == head[i]);
            } else {
                assert(percent_encoded(bytes)[i] == percent_encoded(bytes.drop_first())[i
                    - head.len()]);
            }
        }
    }
}

// ----- Lucene phrases -------------------------------------------------------

/// One character inside a Lucene quoted phrase.
pub open spec fn phrase_char(c: char) -> Seq<char> {
    if c == '\\' {
        seq!['\\', '\\']
    } else if c == '"' {
        seq!['\\', '"']
    } else {
        seq![c]
    }
}

/// A text inside a Lucene quoted phrase.
pub open spec fn phrase_escaped(s: Seq<char>) -> Seq<char>
    decreases s.len(),
{
    if s.len() == 0 {
        seq![]
    } else {
        phrase_escaped(s.drop_last()) + phrase_char(s.last())
    }
}

/// Escape a value going inside a Lucene quoted phrase (`"..."`).
pub fn escape_lucene_phrase(s: &str) -> (escaped: String)
    ensures
        escaped@ == phrase_escaped(s@),
{
    let mut out = String::new();
    for c in it: s.chars()
        invariant
            it.seq() == s@,
            out@ == phrase_escaped(s@.take(it.index())),
    {
        let ghost before = out@;
        if c == '\\' {
            out.push('\\');
            out.push('\\');
        } else if c == '"' {
            out.push('\\');
            out.push('"');
        } else {
            out.push(c);
        }
        proof {
            assert(out@ =~= before + phrase_char(c));
            assert(s@.take(it.index() + 1).drop_last() =~= s@.take(it.index()));
        }
    }
    assert(s@.take(s@.len() as int) =~= s@);
    out
}

/// Reads a quoted phrase from behind its opening quote: its text, up to the
/// first quote without a backslash before it, and what follows that quote.
pub open spec fn read_phrase(s: Seq<char>) -> Option<(Seq<char>, Seq<char>)>
    decreases s.len(),
{
    if s.len() == 0 {
        None
    } else if s[0] == '"' {
        Some((seq![], s.skip(1)))
    } else if s[0] == '\\' {
        if s.len() == 1 {
            None
        } else {
            match read_phrase(s.skip(2)) {
                Some((inner, rest)) => Some((seq![s[1]] + inner, rest)),
                None => None,
            }
        }
    } else {
        match read_phrase(s.skip(1)) {
            Some((inner, rest)) => Some((seq![s[0]] + inner, rest)),
            None => None,
        }
    }
}

proof fn phrase_escaped_front(s: Seq<char>)
    requires
        s.len() > 0,
    ensures
        phrase_escaped(s) == phrase_char(s[0]) + phrase_escaped(s.drop_first()),
    decreases s.len(),
{
    reveal_with_fuel(phrase_escaped, 2);
    if s.len() > 1 {
        phrase_escaped_front(s.drop_last());
        assert(s.drop_last().drop_first() =~= s.drop_first().drop_last());
        assert(phrase_escaped(s) =~= phrase_char(s[0]) + phrase_escaped(s.drop_first()));
    } else {
        assert(s.drop_last() =~= Seq::empty());
        assert(s.drop_first() =~= Seq::empty());
        assert(phrase_escaped(s) =~= phrase_char(s[0]) + phrase_escaped(s.drop_first()));
    }
}

/// An escaped text never ends the phrase early: read back, it is the text
/// itself, and the phrase ends at the quote behind it.
pub proof fn phrase_round_trip(s: Seq<char>, rest: Seq<char>)
    ensures
        read_phrase(phrase_escaped(s) + seq!['"'] + rest) == Some((s, rest)),
    decreases s.len(),
{
    let whole = phrase_escaped(s) + seq!['"'] + rest;
    if s.len() == 0 {
        assert(whole.skip(1) =~= rest);
        assert(s =~= Seq::empty());
    } else {
        let tail = phrase_escaped(s.drop_first()) + seq!['"'] + rest;
        phrase_escaped_front(s);
        phrase_round_trip(s.drop_first(), rest);
        assert(s =~= seq![s[0]] + s.drop_first());
        if s[0] == '\\' || s[0] == '"' {
            assert(whole.skip(2) =~= tail);
        } else {
            assert(whole.skip(1) =~= tail);
        }
    }
}

// ----- web addresses --------------------------------------------------------

/// The Lucene query for an artist's release groups from `cutoff` on.
pub open spec fn lucene_query(artist: Seq<char>, cutoff: Seq<char>) -> Seq<char> {
    "artist:\""@ + phrase_escaped(artist) + "\" AND firstreleasedate:["@ + cutoff + " TO *]"@
}

/// The address of the MusicBrainz search for an artist's releases from `cutoff` on.
pub open spec fn mb_url(artist: Seq<char>, cutoff: Seq<char>) -> Seq<char> {
    "https://musicbrainz.org/ws/2/release-group?query="@ + percent_encoded(
        encode_utf8(lucene_query(artist, cutoff)),
    ) + "&fmt=json&limit=25"@
}

/// The address of the MusicBrainz search for an artist's releases from `cutoff` on.
pub fn build_mb_url(artist: &str, cutoff: &str) -> (url: String)
    ensures
        url@ == mb_url(artist@, cutoff@),
{
    let mut lucene = "artist:\"".to_owned();
    lucene.append(escape_lucene_phrase(artist).as_str());
    lucene.append("\" AND firstreleasedate:[");
    lucene.append(cutoff);
    lucene.append(" TO *]");
    let mut url = "https://musicbrainz.org/ws/2/release-group?query=".to_owned();
    url.append(encode_query(lucene.as_str()).as_str());
    url.append("&fmt=json&limit=25");
    url
}

/// The search address carries exactly the Lucene query, and the phrase in
/// that query is exactly the artist's name.
pub proof fn search_asks_for_the_artist(artist: Seq<char>, cutoff: Seq<char>)
    ensures
        ({
            let url = mb_url(artist, cutoff);
            let before = "https://musicbrainz.org/ws/2/release-group?query="@.len() as int;
            let after = "&fmt=json&limit=25"@.len() as int;
            percent_decoded(url.subrange(before, url.len() - after)) == encode_utf8(
                lucene_query(artist, cutoff),
            )
        }),
        read_phrase(lucene_query(artist, cutoff).skip("artist:\""@.len() as int)) == Some(
            (artist, " AND firstreleasedate:["@ + cutoff + " TO *]"@),
        ),
{
    let bytes = encode_utf8(lucene_query(artist, cutoff));
    let url = mb_url(artist, cutoff);
    let before = "https://musicbrainz.org/ws/2/release-group?query="@.len() as int;
    let after = "&fmt=json&limit=25"@.len() as int;
    assert(url.subrange(before, url.len() - after) =~= percent_encoded(bytes));
    percent_round_trip(bytes);
    let rest = " AND firstreleasedate:["@ + cutoff + " TO *]"@;
    reveal_strlit("\" AND firstreleasedate:[");
    reveal_strlit(" AND firstreleasedate:[");
    assert("\" AND firstreleasedate:["@ =~= seq!['"'] + " AND firstreleasedate:["@);
    assert(lucene_query(artist, cutoff).skip("artist:\""@.len() as int) =~= phrase_escaped(artist)
        + seq!['"'] + rest);
    phrase_round_trip(artist, rest);
}

/// The cover of a release group in the Cover Art Archive.
pub open spec fn cover_address(rg_id: Seq<char>) -> Seq<char> {
    "https://coverartarchive.org/release-group/"@ + rg_id + "/front-250"@
}

/// The page of a release group on MusicBrainz.
pub open spec fn page_address(rg_id: Seq<char>) -> Seq<char> {
    "https://musicbrainz.org/release-group/"@ + rg_id
}

/// The cover of a release group in the Cover Art Archive.
pub fn caa_url(rg_id: &str) -> (url: String)
    ensures
        url@ == cover_address(rg_id@),
{
    let mut url = "https://coverartarchive.org/release-group/".to_owned();
    url.append(rg_id);
    url.append("/front-250");
    url
}

/// The page of a release group on MusicBrainz.
pub fn mb_rg_url(rg_id: &str) -> (url: String)
    ensures
        url@ == page_address(rg_id@),
{
    let mut url = "https://musicbrainz.org/release-group/".to_owned();
    url.append(rg_id);
    url
}

// ----- requests -------------------------------------------------------------

/// An HTTP request for the host to send.
pub struct Request {
    pub method: String,
    pub url: String,
    pub headers: Vec<(String, String)>,
    pub body: Option<Vec<u8>>,
}

/// What a [`Request`] says.
#[verifier::ext_equal]
pub struct RequestView {
    pub method: Seq<char>,
    pub url: Seq<char>,
    pub headers: Seq<(Seq<char>, Seq<char>)>,
    pub body: Option<Seq<u8>>,
}

impl View for Request {
    type V = RequestView;

    open spec fn view(&self) -> RequestView {
        RequestView {
            method: self.method@,
            url: self.url@,
            headers: self.headers@.map_values(|h: (String, String)| (h.0@, h.1@)),
            body: match self.body {
                Some(body) => Some(body@),
                None => None,
            },
        }
    }
}

/// The request by which a MusicBrainz address is read.
pub open spec fn mb_request(url: Seq<char>) -> RequestView {
    RequestView {
        method: "GET"@,
        url,
        headers: seq![("User-Agent"@, USER_AGENT@), ("Accept"@, "application/json"@)],
        body: None,
    }
}

/// The request by which a MusicBrainz address is read.
pub fn mb_get(url: &str) -> (request: Request)
    ensures
        request@ == mb_request(url@),
{
    let mut headers: Vec<(String, String)> = Vec::new();
    headers.push(("User-Agent".to_owned(), USER_AGENT.to_owned()));
    headers.push(("Accept".to_owned(), "application/json".to_owned()));
    let request = Request { method: "GET".to_owned(), url: url.to_owned(), headers, body: None };
    assert(request@ =~= mb_request(url@));
    request
}

} // verus!
