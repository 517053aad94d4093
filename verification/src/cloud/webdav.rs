//! WebDAV as Nextcloud speaks it: addresses and directory listings.

use crate::text::{
    cut_last, first_index, joined, lemma_first_index, number_up_to, parse_up_to, pieces,
    rsplit_once, split_on, trim, trim_end, trimmed, trimmed_end, views, CharSet,
};
use crate::xml::{local_name, local_name_eq, read_tokens, token_views, xml_tokens, XmlToken};
use std::collections::HashMap;
use vstd::prelude::*;
use vstd::utf8::encode_utf8;

verus! {

broadcast use vstd::std_specs::hash::group_hash_axioms;

// ---- addresses --------------------------------------------------------------

/// True of the bytes that an address keeps as they are: letters, digits, and
/// `-`, `_`, `.` and `~`.
pub open spec fn unreserved(b: u8) -> bool {
    ||| 48 <= b <= 57
    ||| 65 <= b <= 90
    ||| 97 <= b <= 122
    ||| b == 45
    ||| b == 95
    ||| b == 46
    ||| b == 126
}

/// The upper-case hexadecimal digit of a number below sixteen.
pub open spec fn hex_digit(n: int) -> char {
    if n < 10 {
        (48 + n) as char
    } else {
        (55 + n) as char
    }
}

/// How a byte is written in an address: as it is, or as `%` and two digits.
pub open spec fn encoded_byte(b: u8) -> Seq<char> {
    if unreserved(b) {
        seq![b as char]
    } else {
        seq!['%', hex_digit(b as int / 16), hex_digit(b as int % 16)]
    }
}

/// How bytes are written in an address.
pub open spec fn encoded_bytes(bytes: Seq<u8>) -> Seq<char>
    decreases bytes.len(),
{
    if bytes.len() == 0 {
        seq![]
    } else {
        encoded_bytes(bytes.drop_last()) + encoded_byte(bytes.last())
    }
}

/// How one segment of a path is written in an address.
pub open spec fn encoded_segment(s: Seq<char>) -> Seq<char> {
    encoded_bytes(encode_utf8(s))
}

/// How a path is written in an address: each of its segments encoded, with the
/// separators kept.
pub open spec fn encoded_path(rel: Seq<char>) -> Seq<char> {
    let p = pieces(rel, '/');
    joined(Seq::new(p.len(), |i: int| encoded_segment(p[i])), "/"@)
}

/// The upper-case hexadecimal digit of a number below sixteen.
pub fn hex_upper(nibble: u8) -> (r: char)
    requires
        nibble < 16,
    ensures
        r == hex_digit(nibble as int),
{
    if nibble < 10 {
        (48 + nibble) as char
    } else {
        (55 + nibble) as char
    }
}

/// Encodes one segment of a path.
pub fn encode_segment(seg: &str) -> (r: String)
    ensures
        r@ == encoded_segment(seg@),
{
    let bytes = seg.as_bytes();
    let mut out: String = String::new();
    let mut i: usize = 0;
    assert(bytes@.take(0) =~= seq![]);
    while i < bytes.len()
        invariant
            i <= bytes@.len(),
            out@ == encoded_bytes(bytes@.take(i as int)),
        decreases bytes.len() - i,
    {
        let b: u8 = bytes[i];
        let ghost before = out@;
        let keep = (48 <= b && b <= 57) || (65 <= b && b <= 90) || (97 <= b && b <= 122) || b == 45
            || b == 95 || b == 46 || b == 126;
        if keep {
            out.push(b as char);
        } else {
            out.push('%');
            out.push(hex_upper(b / 16));
            out.push(hex_upper(b % 16));
        }
        proof {
            assert(bytes@.take(i + 1).drop_last() =~= bytes@.take(i as int));
            assert(bytes@.take(i + 1).last() == b);
            assert(out@ =~= before + encoded_byte(b));
        }
        i += 1;
    }
    assert(bytes@.take(i as int) =~= bytes@);
    out
}

/// Encodes each segment of a path and keeps the separators.
pub fn encode_path_segments(rel: &str) -> (r: String)
    ensures
        r@ == encoded_path(rel@),
{
    let segs = split_on(rel, '/');
    let ghost p = pieces(rel@, '/');
    let ghost enc = Seq::new(p.len(), |i: int| encoded_segment(p[i]));
    assert(views(segs@).len() == segs@.len());
    assert(views(segs@)[0] == segs@[0]@);
    let mut out = encode_segment(segs[0].as_str());
    let mut i: usize = 1;
    assert(enc.take(1).len() == 1 && enc.take(1)[0] == out@);
    while i < segs.len()
        invariant
            1 <= i <= segs@.len() == enc.len(),
            views(segs@) == p,
            enc == Seq::new(p.len(), |i: int| encoded_segment(p[i])),
            out@ == joined(enc.take(i as int), "/"@),
        decreases segs.len() - i,
    {
        let e = encode_segment(segs[i].as_str());
        out.append("/");
        out.append(e.as_str());
        proof {
            assert(views(segs@)[i as int] == segs@[i as int]@);
            assert(enc.take(i + 1).drop_last() =~= enc.take(i as int));
            assert(enc.take(i + 1).last() == e@);
        }
        i += 1;
    }
    assert(enc.take(i as int) =~= enc);
    out
}

/// The base of an address without the separators at its end.
pub open spec fn url_base(base: Seq<char>) -> Seq<char> {
    trimmed_end(base, CharSet::Only('/'))
}

/// The address of a file of `username`.
pub open spec fn file_address(base: Seq<char>, username: Seq<char>, rel: Seq<char>) -> Seq<char> {
    url_base(base) + "/remote.php/dav/files/"@ + username + "/"@ + encoded_path(rel)
}

/// The address of an upload directory of `username`.
pub open spec fn upload_dir(base: Seq<char>, username: Seq<char>, upload_id: Seq<char>) -> Seq<
    char,
> {
    url_base(base) + "/remote.php/dav/uploads/"@ + username + "/"@ + upload_id
}

/// The address of a file of `username`: `<base>/remote.php/dav/files/<user>/<path>`.
pub fn files_url(base_url: &str, username: &str, remote_rel: &str) -> (r: String)
    ensures
        r@ == file_address(base_url@, username@, remote_rel@),
{
    let mut s = trim_end(base_url, CharSet::Only('/'));
    s.append("/remote.php/dav/files/");
    s.append(username);
    s.append("/");
    s.append(encode_path_segments(remote_rel).as_str());
    s
}

/// The address of an upload directory, or of a part in it:
/// `<base>/remote.php/dav/uploads/<user>/<id>[/<part>]`.
pub fn uploads_url(base_url: &str, username: &str, upload_id: &str, part: Option<&str>) -> (r:
    String)
    ensures
        r@ == (match part {
            Some(p) => upload_dir(base_url@, username@, upload_id@) + "/"@ + p@,
            None => upload_dir(base_url@, username@, upload_id@),
        }),
{
    let mut s = trim_end(base_url, CharSet::Only('/'));
    s.append("/remote.php/dav/uploads/");
    s.append(username);
    s.append("/");
    s.append(upload_id);
    match part {
        Some(p) => {
            s.append("/");
            s.append(p);
            s
        },
        None => s,
    }
}

/// True of the characters that an encoded segment can hold: letters, digits,
/// `-`, `_`, `.`, `~` and `%`.
pub open spec fn address_char(c: char) -> bool {
    ||| '0' <= c <= '9'
    ||| 'A' <= c <= 'Z'
    ||| 'a' <= c <= 'z'
    ||| c == '-'
    ||| c == '_'
    ||| c == '.'
    ||| c == '~'
    ||| c == '%'
}

/// An encoded segment holds no character that means something in an address: no
/// separator, no space, no `#`, no `?`, no `+`.
pub proof fn encoded_segment_is_safe(bytes: Seq<u8>)
    ensures
        forall|i: int|
            0 <= i < encoded_bytes(bytes).len() ==> address_char(#[trigger] encoded_bytes(bytes)[i]),
    decreases bytes.len(),
{
    if bytes.len() > 0 {
        encoded_segment_is_safe(bytes.drop_last());
        let head = encoded_bytes(bytes.drop_last());
        let e = encoded_byte(bytes.last());
        let all = encoded_bytes(bytes);
        assert forall|i: int| 0 <= i < all.len() implies address_char(#[trigger] all[i]) by {
            if i < head.len() {
                assert(all[i] == head[i]);
            } else {
                assert(all[i] == e[i - head.len()]);
            }
        }
    }
}

/// Bytes that need no encoding are kept as they are.
pub proof fn unreserved_bytes_are_kept(bytes: Seq<u8>)
    requires
        forall|i: int| 0 <= i < bytes.len() ==> unreserved(#[trigger] bytes[i]),
    ensures
        encoded_bytes(bytes) =~= Seq::new(bytes.len(), |i: int| bytes[i] as char),
    decreases bytes.len(),
{
    if bytes.len() > 0 {
        let head = bytes.drop_last();
        assert forall|i: int| 0 <= i < head.len() implies unreserved(#[trigger] head[i]) by {
            assert(head[i] == bytes[i]);
        }
        unreserved_bytes_are_kept(head);
        assert(unreserved(bytes[bytes.len() - 1]));
    }
}

/// The value of an upper-case hexadecimal digit.
pub open spec fn hex_value(c: char) -> int {
    if '0' <= c <= '9' {
        c as int - 48
    } else {
        c as int - 55
    }
}

/// The bytes that an encoded text stands for: `%` and two digits are one byte, and
/// every other character is the byte of its number.
pub open spec fn percent_decoded(s: Seq<char>) -> Seq<u8>
    decreases s.len(),
{
    if s.len() == 0 {
        seq![]
    } else if s[0] == '%' && s.len() >= 3 {
        seq![(16 * hex_value(s[1]) + hex_value(s[2])) as u8] + percent_decoded(s.skip(3))
    } else {
        seq![s[0] as u8] + percent_decoded(s.skip(1))
    }
}

proof fn lemma_decoded_byte(b: u8, t: Seq<char>)
    ensures
        percent_decoded(encoded_byte(b) + t) == seq![b] + percent_decoded(t),
{
    let e = encoded_byte(b);
    let s = e + t;
    if unreserved(b) {
        assert(s[0] == b as char);
        assert(b as char != '%');
        assert(s.skip(1) =~= t);
        assert(s[0] as u8 == b);
    } else {
        assert(s[0] == '%' && s[1] == e[1] && s[2] == e[2]);
        assert(s.skip(3) =~= t);
        assert(hex_value(e[1]) == b as int / 16);
        assert(hex_value(e[2]) == b as int % 16);
    }
}

proof fn lemma_decoded_bytes(bytes: Seq<u8>, t: Seq<char>)
    ensures
        percent_decoded(encoded_bytes(bytes) + t) == bytes + percent_decoded(t),
    decreases bytes.len(),
{
    if bytes.len() == 0 {
        assert(encoded_bytes(bytes) + t =~= t);
        assert(bytes + percent_decoded(t) =~= percent_decoded(t));
    } else {
        let head = bytes.drop_last();
        let more = encoded_byte(bytes.last()) + t;
        assert(encoded_bytes(bytes) + t =~= encoded_bytes(head) + more);
        lemma_decoded_bytes(head, more);
        lemma_decoded_byte(bytes.last(), t);
        assert(head + (seq![bytes.last()] + percent_decoded(t)) =~= bytes + percent_decoded(t));
    }
}

proof fn lemma_utf8_concat(a: Seq<char>, b: Seq<char>)
    ensures
        encode_utf8(a + b) == encode_utf8(a) + encode_utf8(b),
    decreases a.len(),
{
    if a.len() == 0 {
        assert(a + b =~= b);
        assert(encode_utf8(a) + encode_utf8(b) =~= encode_utf8(b));
    } else {
        assert((a + b).drop_first() =~= a.drop_first() + b);
        lemma_utf8_concat(a.drop_first(), b);
        assert(encode_utf8(a + b) =~= encode_utf8(a) + encode_utf8(b));
    }
}

proof fn lemma_joined_front(first: Seq<char>, rest: Seq<Seq<char>>, sep: Seq<char>)
    requires
        rest.len() > 0,
    ensures
        joined(seq![first] + rest, sep) == first + sep + joined(rest, sep),
    decreases rest.len(),
{
    let all = seq![first] + rest;
    assert(all.last() == rest.last());
    assert(all.drop_last() =~= seq![first] + rest.drop_last());
    if rest.len() > 1 {
        lemma_joined_front(first, rest.drop_last(), sep);
        assert(joined(all, sep) =~= first + sep + joined(rest, sep));
    } else {
        assert(joined(all.drop_last(), sep) == first);
        assert(joined(rest, sep) == rest.last());
    }
}

proof fn lemma_encoded_path(rel: Seq<char>)
    ensures
        ({
            let i = first_index(rel, '/');
            if 0 <= i < rel.len() {
                encoded_path(rel) == encoded_segment(rel.take(i)) + "/"@ + encoded_path(
                    rel.skip(i + 1),
                )
            } else {
                encoded_path(rel) == encoded_segment(rel)
            }
        }),
{
    let i = first_index(rel, '/');
    let p = pieces(rel, '/');
    let enc = Seq::new(p.len(), |i: int| encoded_segment(p[i]));
    if 0 <= i < rel.len() {
        let q = pieces(rel.skip(i + 1), '/');
        let rest = Seq::new(q.len(), |i: int| encoded_segment(q[i]));
        assert(enc =~= seq![encoded_segment(rel.take(i))] + rest);
        lemma_joined_front(encoded_segment(rel.take(i)), rest, "/"@);
    } else {
        assert(enc.len() == 1 && enc[0] == encoded_segment(rel));
    }
}

/// Decoding an encoded path gives the bytes of the path back.
pub proof fn an_encoded_path_decodes(rel: Seq<char>)
    ensures
        percent_decoded(encoded_path(rel)) == encode_utf8(rel),
    decreases rel.len(),
{
    let i = first_index(rel, '/');
    lemma_first_index(rel, '/');
    lemma_encoded_path(rel);
    if 0 <= i < rel.len() {
        let head = rel.take(i);
        let tail = rel.skip(i + 1);
        let more = "/"@ + encoded_path(tail);
        reveal_strlit("/");
        assert(encoded_path(rel) =~= encoded_segment(head) + more);
        lemma_decoded_bytes(encode_utf8(head), more);
        assert(more.skip(1) =~= encoded_path(tail));
        an_encoded_path_decodes(tail);
        assert(rel =~= head + ("/"@ + tail));
        lemma_utf8_concat(head, "/"@ + tail);
        lemma_utf8_concat("/"@, tail);
        vstd::utf8::is_ascii_chars_encode_utf8("/"@);
        assert(encode_utf8("/"@) =~= seq![47u8]);
        assert(percent_decoded(more) == seq![47u8] + encode_utf8(tail));
    } else {
        lemma_decoded_bytes(encode_utf8(rel), seq![]);
        assert(encoded_segment(rel) + seq![] =~= encoded_segment(rel));
        assert(encode_utf8(rel) + percent_decoded(seq![]) =~= encode_utf8(rel));
    }
}

/// Two paths that are written alike in an address are the same path.
pub proof fn encoded_paths_differ(a: Seq<char>, b: Seq<char>)
    requires
        encoded_path(a) == encoded_path(b),
    ensures
        a == b,
{
    an_encoded_path_decodes(a);
    an_encoded_path_decodes(b);
    vstd::utf8::encode_utf8_decode_utf8(a);
    vstd::utf8::encode_utf8_decode_utf8(b);
}

/// The separators of a path stay, and no others come: what stands between them in
/// the address are the encoded segments.
pub proof fn separators_stay(rel: Seq<char>)
    ensures
        pieces(encoded_path(rel), '/') == Seq::new(
            pieces(rel, '/').len(),
            |i: int| encoded_segment(pieces(rel, '/')[i]),
        ),
    decreases rel.len(),
{
    let i = first_index(rel, '/');
    lemma_first_index(rel, '/');
    lemma_encoded_path(rel);
    let p = pieces(rel, '/');
    let e = encoded_path(rel);
    let k = first_index(e, '/');
    lemma_first_index(e, '/');
    let enc = Seq::new(p.len(), |i: int| encoded_segment(p[i]));
    if 0 <= i < rel.len() {
        let head = encoded_segment(rel.take(i));
        let tail = rel.skip(i + 1);
        reveal_strlit("/");
        encoded_segment_is_safe(encode_utf8(rel.take(i)));
        assert(e[head.len() as int] == '/');
        assert forall|j: int| 0 <= j < head.len() implies e[j] != '/' by {
            assert(e[j] == head[j]);
            assert(address_char(head[j]));
        }
        assert(k == head.len());
        assert(e.take(k) =~= head);
        assert(e.skip(k + 1) =~= encoded_path(tail));
        separators_stay(tail);
        assert(pieces(e, '/') =~= enc);
    } else {
        encoded_segment_is_safe(encode_utf8(rel));
        assert forall|j: int| 0 <= j < e.len() implies e[j] != '/' by {
            assert(address_char(e[j]));
        }
        assert(pieces(e, '/') =~= enc);
    }
}

// ---- listings ---------------------------------------------------------------

/// The first readable length in a listing, in tokens of which `inside` says
/// whether they begin inside a length element.
pub open spec fn first_length(tokens: Seq<XmlToken<Seq<u8>, Seq<char>>>, inside: bool) -> Option<
    nat,
>
    decreases tokens.len(),
{
    if tokens.len() == 0 {
        None
    } else {
        let rest = tokens.drop_first();
        match tokens[0] {
            XmlToken::Start(n) => first_length(
                rest,
                inside || local_name(n) == encode_utf8("getcontentlength"@),
            ),
            XmlToken::End(n) => first_length(
                rest,
                inside && local_name(n) != encode_utf8("getcontentlength"@),
            ),
            XmlToken::Text(t) => {
                if inside {
                    let n = match t {
                        Some(s) => number_up_to(trimmed(s, CharSet::Space), u64::MAX as nat),
                        None => None,
                    };
                    if n is Some {
                        n
                    } else {
                        first_length(rest, false)
                    }
                } else {
                    first_length(rest, inside)
                }
            },
            XmlToken::Other => first_length(rest, inside),
            XmlToken::Eof | XmlToken::Bad => None,
        }
    }
}

/// The first readable length among the tokens of a listing.
pub fn first_length_in(tokens: &Vec<XmlToken>) -> (r: Option<u64>)
    ensures
        match r {
            Some(n) => first_length(token_views(tokens@), false) == Some(n as nat),
            None => first_length(token_views(tokens@), false) is None,
        },
{
    let ghost all = token_views(tokens@);
    let mut inside = false;
    let mut i: usize = 0;
    assert(all.skip(0) =~= all);
    while i < tokens.len()
        invariant
            all == token_views(tokens@),
            i <= tokens@.len(),
            first_length(all.skip(i as int), inside) == first_length(all, false),
        decreases tokens.len() - i,
    {
        assert(all.skip(i as int)[0] == tokens@[i as int]@);
        assert(all.skip(i as int).drop_first() =~= all.skip(i + 1));
        match &tokens[i] {
            XmlToken::Start(name) => {
                if local_name_eq(name.as_slice(), "getcontentlength".as_bytes()) {
                    inside = true;
                }
            },
            XmlToken::End(name) => {
                if local_name_eq(name.as_slice(), "getcontentlength".as_bytes()) {
                    inside = false;
                }
            },
            XmlToken::Text(text) => {
                if inside {
                    if let Some(s) = text {
                        if let Some(n) = parse_up_to(
                            trim(s.as_str(), CharSet::Space).as_str(),
                            u64::MAX,
                        ) {
                            return Some(n);
                        }
                    }
                    inside = false;
                }
            },
            XmlToken::Other => {},
            XmlToken::Eof | XmlToken::Bad => {
                return None;
            },
        }
        i += 1;
    }
    None
}

/// The first `getcontentlength` in the body of a listing, whatever its namespace
/// prefix.
pub fn parse_first_contentlength(xml: &str) -> (r: Option<u64>)
    ensures
        match r {
            Some(n) => first_length(xml_tokens(xml@), false) == Some(n as nat),
            None => first_length(xml_tokens(xml@), false) is None,
        },
{
    first_length_in(&read_tokens(xml))
}

/// How far the reading of a chunk listing has come.
#[verifier::ext_equal]
pub struct ListingModel {
    /// The part that the current response names.
    pub part: Option<u32>,
    /// The length that the current response gives.
    pub len: Option<u64>,
    pub in_href: bool,
    pub in_len: bool,
    /// The parts of the responses that have ended.
    pub found: Map<u32, u64>,
}

/// What follows the last separator of a link, after the separators at its end.
pub open spec fn link_tail(text: Seq<char>) -> Seq<char> {
    let t = trimmed_end(trimmed(text, CharSet::Space), CharSet::Only('/'));
    match cut_last(t, '/') {
        Some((_, tail)) => tail,
        None => t,
    }
}

/// The part number that a link ends with: five characters that write a number.
pub open spec fn link_part(text: Seq<char>) -> Option<u32> {
    let tail = link_tail(text);
    match number_up_to(tail, u32::MAX as nat) {
        Some(n) => if tail.len() == 5 {
            Some(n as u32)
        } else {
            None
        },
        None => None,
    }
}

/// The length that a text writes.
pub open spec fn text_length(text: Seq<char>) -> Option<u64> {
    match number_up_to(trimmed(text, CharSet::Space), u64::MAX as nat) {
        Some(n) => Some(n as u64),
        None => None,
    }
}

impl ListingModel {
    /// The listing after one more token.
    pub open spec fn step(self, token: XmlToken<Seq<u8>, Seq<char>>) -> ListingModel {
        match token {
            XmlToken::Start(n) => {
                if local_name(n) == encode_utf8("response"@) {
                    ListingModel { part: None, len: None, ..self }
                } else if local_name(n) == encode_utf8("href"@) {
                    ListingModel { in_href: true, ..self }
                } else if local_name(n) == encode_utf8("getcontentlength"@) {
                    ListingModel { in_len: true, ..self }
                } else {
                    self
                }
            },
            XmlToken::Text(Some(s)) => {
                if self.in_href {
                    match link_part(s) {
                        Some(p) => ListingModel { part: Some(p), ..self },
                        None => self,
                    }
                } else if self.in_len {
                    ListingModel { len: text_length(s), ..self }
                } else {
                    self
                }
            },
            XmlToken::End(n) => {
                if local_name(n) == encode_utf8("href"@) {
                    ListingModel { in_href: false, ..self }
                } else if local_name(n) == encode_utf8("getcontentlength"@) {
                    ListingModel { in_len: false, ..self }
                } else if local_name(n) == encode_utf8("response"@) {
                    match (self.part, self.len) {
                        (Some(p), Some(l)) => ListingModel { found: self.found.insert(p, l), ..self },
                        _ => self,
                    }
                } else {
                    self
                }
            },
            _ => self,
        }
    }

    /// The listing after some tokens.
    pub open spec fn run(self, tokens: Seq<XmlToken<Seq<u8>, Seq<char>>>) -> ListingModel
        decreases tokens.len(),
    {
        if tokens.len() == 0 {
            self
        } else {
            self.step(tokens[0]).run(tokens.drop_first())
        }
    }
}

/// The chunks that the tokens of a listing name, with their lengths.
pub open spec fn chunks_of(tokens: Seq<XmlToken<Seq<u8>, Seq<char>>>) -> Map<u32, u64> {
    (ListingModel { part: None, len: None, in_href: false, in_len: false, found: Map::empty() }).run(
        tokens,
    ).found
}

/// The chunks that a listing of an upload directory names, with their lengths.
pub open spec fn listed_chunks(xml: Seq<char>) -> Map<u32, u64> {
    chunks_of(xml_tokens(xml))
}

/// The part number that a link ends with.
fn part_of_link(text: &str) -> (r: Option<u32>)
    ensures
        r == link_part(text@),
{
    let trimmed_text = trim(text, CharSet::Space);
    let t = trim_end(trimmed_text.as_str(), CharSet::Only('/'));
    let tail = match rsplit_once(t.as_str(), '/') {
        Some((_, tail)) => tail,
        None => t,
    };
    let n: usize = crate::text::to_chars(tail.as_str()).len();
    match parse_up_to(tail.as_str(), 4294967295u64) {
        Some(p) => if n == 5 {
            Some(p as u32)
        } else {
            None
        },
        None => None,
    }
}

/// The chunks that the tokens of a listing name.
pub fn chunks_in(tokens: &Vec<XmlToken>) -> (r: HashMap<u32, u64>)
    ensures
        r@ == chunks_of(token_views(tokens@)),
{
    let ghost all = token_views(tokens@);
    let mut found: HashMap<u32, u64> = HashMap::new();
    let mut part: Option<u32> = None;
    let mut len: Option<u64> = None;
    let mut in_href = false;
    let mut in_len = false;
    let mut i: usize = 0;
    assert(found@ =~= Map::<u32, u64>::empty());
    assert(all.skip(0) =~= all);
    while i < tokens.len()
        invariant
            all == token_views(tokens@),
            i <= tokens@.len(),
            (ListingModel { part, len, in_href, in_len, found: found@ }).run(all.skip(i as int)).found
                == chunks_of(all),
        decreases tokens.len() - i,
    {
        let ghost model = ListingModel { part, len, in_href, in_len, found: found@ };
        let ghost token = tokens@[i as int]@;
        assert(all.skip(i as int)[0] == token);
        assert(all.skip(i as int).drop_first() =~= all.skip(i + 1));
        match &tokens[i] {
            XmlToken::Start(name) => {
                if local_name_eq(name.as_slice(), "response".as_bytes()) {
                    part = None;
                    len = None;
                } else if local_name_eq(name.as_slice(), "href".as_bytes()) {
                    in_href = true;
                } else if local_name_eq(name.as_slice(), "getcontentlength".as_bytes()) {
                    in_len = true;
                }
            },
            XmlToken::Text(text) => {
                if let Some(s) = text {
                    if in_href {
                        if let Some(p) = part_of_link(s.as_str()) {
                            part = Some(p);
                        }
                    } else if in_len {
                        len = parse_up_to(trim(s.as_str(), CharSet::Space).as_str(), u64::MAX);
                    }
                }
            },
            XmlToken::End(name) => {
                if local_name_eq(name.as_slice(), "href".as_bytes()) {
                    in_href = false;
                } else if local_name_eq(name.as_slice(), "getcontentlength".as_bytes()) {
                    in_len = false;
                } else if local_name_eq(name.as_slice(), "response".as_bytes()) {
                    if let Some(p) = part {
                        if let Some(l) = len {
                            found.insert(p, l);
                        }
                    }
                }
            },
            XmlToken::Other | XmlToken::Eof | XmlToken::Bad => {},
        }
        assert((ListingModel { part, len, in_href, in_len, found: found@ }) == model.step(token));
        i += 1;
    }
    assert(all.skip(i as int).len() == 0);
    found
}

/// Reads the listing of an upload directory: which parts it holds, and how many
/// bytes of each.
pub fn parse_chunk_listing(xml: &str) -> (r: HashMap<u32, u64>)
    ensures
        r@ == listed_chunks(xml@),
{
    chunks_in(&read_tokens(xml))
}

} // verus!
