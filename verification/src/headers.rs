//! HTTP header fields: what a header map holds, the order-preserving text
//! form in which headers are stored, and the removal of hop-by-hop fields.

use vstd::prelude::*;
use vstd::string::*;
use vstd::utf8::*;

use crate::text;

verus! {

/// The header map of the `http` crate.
#[verifier::external_type_specification]
#[verifier::external_body]
#[verifier::reject_recursive_types(T)]
pub struct ExHeaderMap<T>(http::HeaderMap<T>);

/// One header value of the `http` crate.
#[verifier::external_type_specification]
#[verifier::external_body]
pub struct ExHeaderValue(http::HeaderValue);

/// The fields that a header map holds, name and value, in the order in which
/// the map hands them out.
pub uninterp spec fn header_entries(headers: http::HeaderMap) -> Seq<(Seq<char>, Seq<u8>)>;

/// The values under one name, in order.
pub open spec fn values_of(entries: Seq<(Seq<char>, Seq<u8>)>, name: Seq<char>) -> Seq<Seq<u8>>
    decreases entries.len(),
{
    if entries.len() == 0 {
        Seq::empty()
    } else {
        let before = values_of(entries.drop_last(), name);
        if entries.last().0 == name {
            before.push(entries.last().1)
        } else {
            before
        }
    }
}

/// A byte that a header value can hold: no control character but the tab.
pub open spec fn value_byte(b: u8) -> bool {
    (b >= 32 && b != 127) || b == 9
}

/// A character of a token, which is what a header name is meant to be.
pub open spec fn token_char(c: char) -> bool {
    ||| 'a' <= c && c <= 'z'
    ||| 'A' <= c && c <= 'Z'
    ||| '0' <= c && c <= '9'
    ||| c == '!' || c == '#' || c == '$' || c == '%' || c == '&' || c == '\'' || c == '*'
    ||| c == '+' || c == '-' || c == '.' || c == '^' || c == '_' || c == '`' || c == '|' || c == '~'
}

/// A character that a header name in the map can hold: that of a token, in
/// lower case. Two others get in: a quotation mark in names that come in lower
/// case already, as they do in HTTP/2, and NUL in place of what is no token in
/// long names that a program fills in.
pub open spec fn name_char(c: char) -> bool {
    ||| token_char(c) && !('A' <= c && c <= 'Z')
    ||| c == '"'
    ||| c == '\0'
}

/// A header name as the map keeps it.
pub open spec fn valid_name(name: Seq<char>) -> bool {
    name.len() > 0 && forall|i: int| 0 <= i < name.len() ==> name_char(#[trigger] name[i])
}

/// A header value as the map keeps it.
pub open spec fn valid_value(value: Seq<u8>) -> bool {
    forall|i: int| 0 <= i < value.len() ==> value_byte(#[trigger] value[i])
}

/// Fields as the map keeps them.
pub open spec fn valid_entries(entries: Seq<(Seq<char>, Seq<u8>)>) -> bool {
    forall|i: int|
        0 <= i < entries.len() ==> valid_name((#[trigger] entries[i]).0) && valid_value(
            entries[i].1,
        )
}

/// What stands in the name of a field for a character of the text that it is
/// looked up by: a token's in lower case, and NUL for each byte of any other.
pub open spec fn key_chars(c: char) -> Seq<char> {
    if token_char(c) {
        seq![text::lower_char(c)]
    } else if (c as u32) < 0x80 {
        seq!['\0']
    } else if (c as u32) < 0x800 {
        seq!['\0', '\0']
    } else if (c as u32) < 0x10000 {
        seq!['\0', '\0', '\0']
    } else {
        seq!['\0', '\0', '\0', '\0']
    }
}

/// What stands in the name of a field for the text that it is looked up by.
pub open spec fn key_text(s: Seq<char>) -> Seq<char>
    decreases s.len(),
{
    if s.len() == 0 {
        Seq::empty()
    } else {
        key_text(s.drop_last()) + key_chars(s.last())
    }
}

/// The name of the fields that are found by a text. By a text of at most 64
/// bytes that is no token nothing is found.
pub open spec fn key_of(s: Seq<char>) -> Option<Seq<char>> {
    let key = key_text(s);
    if key.len() == 0 || key.len() > 65_535 || (key.len() <= 64 && key.contains('\0')) {
        None
    } else {
        Some(key)
    }
}

/// The values that are found by a text, in order.
pub open spec fn found_by(entries: Seq<(Seq<char>, Seq<u8>)>, name: Seq<char>) -> Seq<Seq<u8>> {
    match key_of(name) {
        Some(key) => values_of(entries, key),
        None => Seq::empty(),
    }
}

/// A token is looked up in lower case.
proof fn lemma_key_of_token(s: Seq<char>)
    requires
        forall|i: int| 0 <= i < s.len() ==> token_char(#[trigger] s[i]),
    ensures
        key_text(s) == text::lower(s),
        !text::lower(s).contains('\0'),
    decreases s.len(),
{
    if s.len() > 0 {
        let rest = s.drop_last();
        assert forall|i: int| 0 <= i < rest.len() implies token_char(#[trigger] rest[i]) by {
            assert(rest[i] == s[i]);
        }
        lemma_key_of_token(rest);
        assert(s[s.len() - 1] == s.last());
        assert(text::lower(s) =~= text::lower(rest).push(text::lower_char(s.last())));
        assert(key_text(s) =~= text::lower(s));
        let lowered = text::lower(s);
        if lowered.contains('\0') {
            let i = choose|i: int| 0 <= i < lowered.len() && lowered[i] == '\0';
            if i < rest.len() {
                assert(text::lower(rest)[i] == '\0');
            }
        }
    } else {
        assert(key_text(s) =~= text::lower(s));
    }
}

/// A text that is looked up without a NUL is a token.
proof fn lemma_token_of_key(s: Seq<char>)
    requires
        !key_text(s).contains('\0'),
    ensures
        forall|i: int| 0 <= i < s.len() ==> token_char(#[trigger] s[i]),
    decreases s.len(),
{
    if s.len() > 0 {
        let rest = s.drop_last();
        let key = key_text(s);
        let first = key_text(rest);
        if first.contains('\0') {
            let i = choose|i: int| 0 <= i < first.len() && first[i] == '\0';
            assert(key[i] == '\0');
        }
        lemma_token_of_key(rest);
        if !token_char(s.last()) {
            assert(key[first.len() as int] == '\0');
        }
        assert forall|i: int| 0 <= i < s.len() implies token_char(#[trigger] s[i]) by {
            if i < rest.len() {
                assert(rest[i] == s[i]);
            }
        }
    }
}

/// `HeaderMap::remove`: every value that is found by the text goes, and the
/// values under the other names stay as they are. Of the order in which the
/// map then hands out different names nothing is claimed.
#[verifier::external_body]
pub(crate) fn remove_header(headers: &mut http::HeaderMap, name: &str)
    ensures
        forall|n: Seq<char>|
            #![trigger values_of(header_entries(*final(headers)), n)]
            values_of(header_entries(*final(headers)), n) == (if key_of(name@) == Some(n) {
                Seq::<Seq<u8>>::empty()
            } else {
                values_of(header_entries(*old(headers)), n)
            }),
{
    headers.remove(name);
}

/// `HeaderMap::get_all`: the values that are found by a text, in order.
#[verifier::external_body]
fn header_values(headers: &http::HeaderMap, name: &str) -> (r: Vec<Vec<u8>>)
    ensures
        r@.map_values(|v: Vec<u8>| v@) == found_by(header_entries(*headers), name@),
{
    headers.get_all(name).iter().map(|v| v.as_bytes().to_vec()).collect()
}

/// `HeaderMap::iter`: every field that the map holds, name and value. The
/// names hold no character but a name's, and the values no control character
/// but the tab.
#[verifier::external_body]
fn header_fields(headers: &http::HeaderMap) -> (r: Vec<(String, Vec<u8>)>)
    ensures
        r@.map_values(|f: (String, Vec<u8>)| (f.0@, f.1@)) == header_entries(*headers),
        forall|i: int|
            0 <= i < r@.len() ==> valid_name((#[trigger] r@[i]).0@) && valid_value(r@[i].1@),
{
    headers.iter().map(|(n, v)| (n.as_str().to_string(), v.as_bytes().to_vec())).collect()
}

/// One header field as it is stored: `name: value`, then a line feed.
pub open spec fn field_line(name: Seq<char>, value: Seq<u8>) -> Seq<u8> {
    encode_utf8(name) + encode_utf8(": "@) + value + seq![10u8]
}

/// The stored form of a list of header fields.
pub open spec fn header_blob(entries: Seq<(Seq<char>, Seq<u8>)>) -> Seq<u8>
    decreases entries.len(),
{
    if entries.len() == 0 {
        Seq::empty()
    } else {
        field_line(entries[0].0, entries[0].1) + header_blob(entries.skip(1))
    }
}

/// The header fields as order-preserving `name: value` lines.
pub fn serialize_headers(headers: &http::HeaderMap) -> (r: Vec<u8>)
    ensures
        r@ == header_blob(header_entries(*headers)),
        valid_entries(header_entries(*headers)),
{
    let fields = header_fields(headers);
    let ghost entries = header_entries(*headers);
    proof {
        assert forall|i: int| 0 <= i < entries.len() implies valid_name((#[trigger] entries[i]).0)
            && valid_value(entries[i].1) by {
            assert(entries[i] == (fields@[i].0@, fields@[i].1@));
        }
    }
    let mut out: Vec<u8> = Vec::new();
    let mut i: usize = 0;
    proof {
        assert(entries.skip(0) == entries);
        assert(out@ + header_blob(entries) =~= header_blob(entries));
    }
    while i < fields.len()
        invariant
            i <= fields@.len(),
            entries == fields@.map_values(|f: (String, Vec<u8>)| (f.0@, f.1@)),
            out@ + header_blob(entries.skip(i as int)) == header_blob(entries),
        decreases fields@.len() - i,
    {
        let ghost before = out@;
        out.extend_from_slice(fields[i].0.as_str().as_bytes());
        out.extend_from_slice(": ".as_bytes());
        out.extend_from_slice(fields[i].1.as_slice());
        out.push(10u8);
        proof {
            let rest = entries.skip(i as int);
            assert(rest[0] == entries[i as int]);
            assert(rest.skip(1) == entries.skip(i + 1));
            assert(out@ =~= before + field_line(rest[0].0, rest[0].1));
            assert(out@ + header_blob(entries.skip(i + 1)) =~= before + header_blob(rest));
        }
        i += 1;
    }
    proof {
        assert(entries.skip(i as int) == Seq::<(Seq<char>, Seq<u8>)>::empty());
        assert(out@ =~= out@ + header_blob(entries.skip(i as int)));
    }
    out
}

/// The header fields in a list of lines: each line with a `: ` in it is one,
/// cut at the first.
pub open spec fn fields_in(lines: Seq<Seq<char>>) -> Seq<(Seq<char>, Seq<char>)>
    decreases lines.len(),
{
    if lines.len() == 0 {
        Seq::empty()
    } else {
        let rest = fields_in(lines.skip(1));
        match text::cut(lines[0], ": "@) {
            Some(field) => seq![field] + rest,
            None => rest,
        }
    }
}

/// The views of a list of header fields.
pub open spec fn field_texts(fields: Seq<(String, String)>) -> Seq<(Seq<char>, Seq<char>)> {
    fields.map_values(|f: (String, String)| (f.0@, f.1@))
}

/// The header fields in stored text.
pub fn parse_header_text(text: &str) -> (r: Vec<(String, String)>)
    ensures
        field_texts(r@) == fields_in(text::lines_of(text@)),
{
    let lines = text::lines(text);
    let ghost all = text::lines_of(text@);
    let mut out: Vec<(String, String)> = Vec::new();
    let mut i: usize = 0;
    proof {
        assert(all.skip(0) == all);
        assert(field_texts(out@) + fields_in(all) =~= fields_in(all));
    }
    while i < lines.len()
        invariant
            i <= lines@.len(),
            all == text::texts(lines@),
            field_texts(out@) + fields_in(all.skip(i as int)) == fields_in(all),
        decreases lines@.len() - i,
    {
        let ghost before = field_texts(out@);
        let ghost rest = all.skip(i as int);
        proof {
            assert(rest[0] == lines@[i as int]@);
            assert(rest.skip(1) == all.skip(i + 1));
        }
        match text::split_once(lines[i].as_str(), ": ") {
            Some((name, value)) => {
                out.push((name, value));
                proof {
                    assert(field_texts(out@) =~= before.push((name@, value@)));
                    assert(before + (seq![(name@, value@)] + fields_in(all.skip(i + 1)))
                        =~= before.push((name@, value@)) + fields_in(all.skip(i + 1)));
                }
            },
            None => {},
        }
        i += 1;
    }
    proof {
        assert(all.skip(i as int) == Seq::<Seq<char>>::empty());
        assert(field_texts(out@) =~= field_texts(out@) + fields_in(all.skip(i as int)));
    }
    out
}

/// The fields are those in a stored header block: its lines as UTF-8, with
/// replacements where it is none.
pub open spec fn are_fields_of(blob: Seq<u8>, fields: Seq<(Seq<char>, Seq<char>)>) -> bool {
    &&& fields == fields_in(text::lines_of(text::lossy_text(blob)))
    &&& valid_utf8(blob) ==> fields == fields_in(text::lines_of(decode_utf8(blob)))
}

/// The header fields in a stored header block.
pub fn parse_header_blob(blob: &[u8]) -> (r: Vec<(String, String)>)
    ensures
        are_fields_of(blob@, field_texts(r@)),
{
    let text = text::lossy(blob);
    parse_header_text(text.as_str())
}

/// The text of a list of header fields whose values are UTF-8.
spec fn entries_text(entries: Seq<(Seq<char>, Seq<u8>)>) -> Seq<char>
    decreases entries.len(),
{
    if entries.len() == 0 {
        Seq::empty()
    } else {
        entry_line(entries[0]) + seq!['\n'] + entries_text(entries.skip(1))
    }
}

/// One header field as a line.
spec fn entry_line(entry: (Seq<char>, Seq<u8>)) -> Seq<char> {
    entry.0 + ": "@ + decode_utf8(entry.1)
}

/// The stored form is the UTF-8 encoding of the text.
proof fn lemma_blob_encodes_text(entries: Seq<(Seq<char>, Seq<u8>)>)
    requires
        forall|i: int| 0 <= i < entries.len() ==> valid_utf8((#[trigger] entries[i]).1),
    ensures
        header_blob(entries) == encode_utf8(entries_text(entries)),
    decreases entries.len(),
{
    if entries.len() > 0 {
        let e = entries[0];
        lemma_blob_encodes_text(entries.skip(1));
        decode_utf8_encode_utf8(e.1);
        text::lemma_encode_concat(e.0 + ": "@, decode_utf8(e.1));
        text::lemma_encode_concat(e.0, ": "@);
        text::lemma_encode_concat(entry_line(e) + seq!['\n'], entries_text(entries.skip(1)));
        text::lemma_encode_concat(entry_line(e), seq!['\n']);
        text::lemma_encode_ascii('\n');
        assert(header_blob(entries) =~= encode_utf8(entries_text(entries)));
    } else {
        assert(header_blob(entries) =~= encode_utf8(entries_text(entries)));
    }
}

/// A stored line is cut back into the name and the value that it was made of.
proof fn lemma_entry_line_cut(entry: (Seq<char>, Seq<u8>))
    requires
        valid_name(entry.0),
    ensures
        text::cut(entry_line(entry), ": "@) == Some((entry.0, decode_utf8(entry.1))),
{
    let line = entry_line(entry);
    let name = entry.0;
    let n = name.len() as int;
    reveal_strlit(": ");
    assert(line.subrange(n, n + 2) =~= ": "@);
    assert(text::occurs_at(line, ": "@, n));
    assert forall|j: int| 0 <= j < n implies !text::occurs_at(line, ": "@, j) by {
        assert(name_char(name[j]));
        assert(line.subrange(j, j + 2)[0] == name[j]);
    }
    text::lemma_cut_at(line, ": "@, n);
    assert(line.take(n) =~= name);
    assert(line.skip(n + 2) =~= decode_utf8(entry.1));
}

/// The text of a header value holds no line ending.
proof fn lemma_value_one_line(value: Seq<u8>, k: int)
    requires
        valid_value(value),
        valid_utf8(value),
        0 <= k < decode_utf8(value).len(),
    ensures
        decode_utf8(value)[k] != '\n',
        decode_utf8(value)[k] != '\r',
{
    let c = decode_utf8(value)[k];
    decode_utf8_encode_utf8(value);
    if c == '\n' || c == '\r' {
        text::lemma_ascii_char_encoded(decode_utf8(value), k);
        let j = choose|j: int| 0 <= j < value.len() && value[j] == c as u8;
        assert(value_byte(value[j]));
    }
}

/// A stored line holds no line ending.
proof fn lemma_entry_one_line(entry: (Seq<char>, Seq<u8>))
    requires
        valid_name(entry.0),
        valid_value(entry.1),
        valid_utf8(entry.1),
    ensures
        !entry_line(entry).contains('\n'),
        text::without_cr(entry_line(entry)) == entry_line(entry),
{
    let line = entry_line(entry);
    let n = entry.0.len() as int;
    reveal_strlit(": ");
    assert forall|i: int| 0 <= i < line.len() implies line[i] != '\n' && line[i] != '\r' by {
        if i < n {
            assert(name_char(entry.0[i]));
            assert(line[i] == entry.0[i]);
        } else if i >= n + 2 {
            assert(line[i] == decode_utf8(entry.1)[i - n - 2]);
            lemma_value_one_line(entry.1, i - n - 2);
        }
    }
}

/// Reading stored headers gives back the fields that were stored, in the same
/// order and with duplicates kept, whenever their values are UTF-8: no name
/// or value can be mistaken for a separator.
pub proof fn law_header_blob_reads_back(entries: Seq<(Seq<char>, Seq<u8>)>)
    requires
        forall|i: int|
            0 <= i < entries.len() ==> {
                &&& valid_name((#[trigger] entries[i]).0)
                &&& valid_value(entries[i].1)
                &&& valid_utf8(entries[i].1)
            },
    ensures
        valid_utf8(header_blob(entries)),
        fields_in(text::lines_of(decode_utf8(header_blob(entries)))) == entries.map_values(
            |e: (Seq<char>, Seq<u8>)| (e.0, decode_utf8(e.1)),
        ),
{
    lemma_blob_encodes_text(entries);
    encode_utf8_valid_utf8(entries_text(entries));
    encode_utf8_decode_utf8(entries_text(entries));
    lemma_text_reads_back(entries);
}

/// Reading the text of a list of header fields gives the fields.
proof fn lemma_text_reads_back(entries: Seq<(Seq<char>, Seq<u8>)>)
    requires
        forall|i: int|
            0 <= i < entries.len() ==> {
                &&& valid_name((#[trigger] entries[i]).0)
                &&& valid_value(entries[i].1)
                &&& valid_utf8(entries[i].1)
            },
    ensures
        fields_in(text::lines_of(entries_text(entries))) == entries.map_values(
            |e: (Seq<char>, Seq<u8>)| (e.0, decode_utf8(e.1)),
        ),
    decreases entries.len(),
{
    let all = entries_text(entries);
    let want = entries.map_values(|e: (Seq<char>, Seq<u8>)| (e.0, decode_utf8(e.1)));
    if entries.len() == 0 {
        assert(text::lines_of(all) =~= Seq::<Seq<char>>::empty());
        assert(want =~= Seq::<(Seq<char>, Seq<char>)>::empty());
    } else {
        let e = entries[0];
        let line = entry_line(e);
        let rest = entries_text(entries.skip(1));
        lemma_entry_line_cut(e);
        lemma_entry_one_line(e);
        text::lemma_before_char(line, '\n', rest);
        lemma_text_reads_back(entries.skip(1));
        assert(all.take(line.len() as int) =~= line);
        assert(all.skip(line.len() as int + 1) =~= rest);
        let lines = text::lines_of(all);
        assert(lines == seq![line] + text::lines_of(rest));
        assert(lines.skip(1) =~= text::lines_of(rest));
        let tail = entries.skip(1).map_values(|e: (Seq<char>, Seq<u8>)| (e.0, decode_utf8(e.1)));
        assert(want =~= seq![(e.0, decode_utf8(e.1))] + tail);
    }
}

/// A byte that `HeaderValue::to_str` accepts: visible ASCII, space or tab.
pub open spec fn visible(b: u8) -> bool {
    (b >= 32 && b < 127) || b == 9
}

/// Whether a header value is text.
pub open spec fn is_text(value: Seq<u8>) -> bool {
    forall|i: int| 0 <= i < value.len() ==> visible(#[trigger] value[i])
}

/// A header value as text.
pub open spec fn value_text(value: Seq<u8>) -> Seq<char> {
    value.map_values(|b: u8| b as char)
}

/// The text of a header value, if it is text.
pub fn text_of_value(value: &Vec<u8>) -> (r: Option<String>)
    ensures
        match r {
            Some(s) => is_text(value@) && s@ == value_text(value@),
            None => !is_text(value@),
        },
{
    let mut out = String::new();
    let mut i: usize = 0;
    while i < value.len()
        invariant
            i <= value@.len(),
            out@ == value_text(value@).take(i as int),
            forall|j: int| 0 <= j < i ==> visible(#[trigger] value@[j]),
        decreases value@.len() - i,
    {
        let b = value[i];
        if !((b >= 32 && b < 127) || b == 9) {
            return None;
        }
        out.push(b as char);
        i += 1;
        proof {
            assert(out@ =~= value_text(value@).take(i as int));
        }
    }
    proof {
        assert(value_text(value@).take(i as int) =~= value_text(value@));
    }
    Some(out)
}

/// The names that one `Connection` value lists.
pub open spec fn value_tokens(value: Seq<u8>) -> Seq<Seq<char>> {
    if is_text(value) {
        text::pieces(value_text(value), ',').map_values(
            |p: Seq<char>| text::lower(text::trimmed(p)),
        )
    } else {
        Seq::empty()
    }
}

/// The names that the `Connection` values list.
pub open spec fn connection_tokens(values: Seq<Seq<u8>>) -> Seq<Seq<char>>
    decreases values.len(),
{
    if values.len() == 0 {
        Seq::empty()
    } else {
        value_tokens(values[0]) + connection_tokens(values.skip(1))
    }
}

/// The names that the `Connection` values list, in lower case.
fn named_by_connection(values: &Vec<Vec<u8>>) -> (r: Vec<String>)
    ensures
        text::texts(r@) == connection_tokens(values@.map_values(|v: Vec<u8>| v@)),
{
    let ghost all = values@.map_values(|v: Vec<u8>| v@);
    let mut out: Vec<String> = Vec::new();
    let mut i: usize = 0;
    proof {
        assert(all.skip(0) == all);
        assert(text::texts(out@) + connection_tokens(all) =~= connection_tokens(all));
    }
    while i < values.len()
        invariant
            i <= values@.len(),
            all == values@.map_values(|v: Vec<u8>| v@),
            text::texts(out@) + connection_tokens(all.skip(i as int)) == connection_tokens(all),
        decreases values@.len() - i,
    {
        let ghost before = text::texts(out@);
        proof {
            assert(all.skip(i as int)[0] == values@[i as int]@);
            assert(all.skip(i as int).skip(1) == all.skip(i + 1));
        }
        match text_of_value(&values[i]) {
            Some(s) => {
                let parts = text::split(s.as_str(), ',');
                let ghost tokens = value_tokens(values@[i as int]@);
                let mut k: usize = 0;
                proof {
                    assert(before + tokens.take(0) =~= before);
                }
                while k < parts.len()
                    invariant
                        k <= parts@.len(),
                        tokens == text::texts(parts@).map_values(
                            |p: Seq<char>| text::lower(text::trimmed(p)),
                        ),
                        text::texts(out@) == before + tokens.take(k as int),
                    decreases parts@.len() - k,
                {
                    let t = text::trim(parts[k].as_str());
                    let ghost was = text::texts(out@);
                    out.push(text::to_lower(t.as_str()));
                    k += 1;
                    proof {
                        assert(text::texts(out@) =~= was.push(tokens[k - 1]));
                        assert(was.push(tokens[k - 1]) =~= before + tokens.take(k as int));
                    }
                }
                proof {
                    assert(tokens.take(k as int) =~= tokens);
                    assert(before + (tokens + connection_tokens(all.skip(i + 1))) =~= before
                        + tokens + connection_tokens(all.skip(i + 1)));
                }
            },
            None => {
                proof {
                    assert(Seq::<Seq<char>>::empty() + connection_tokens(all.skip(i + 1))
                        =~= connection_tokens(all.skip(i + 1)));
                }
            },
        }
        i += 1;
    }
    proof {
        assert(all.skip(i as int) == Seq::<Seq<u8>>::empty());
        assert(text::texts(out@) =~= text::texts(out@) + connection_tokens(all.skip(i as int)));
    }
    out
}

/// The hop-by-hop fields that no `Connection` field has to list.
pub open spec fn always_hop(name: Seq<char>) -> bool {
    ||| name == "proxy-connection"@
    ||| name == "keep-alive"@
    ||| name == "proxy-authenticate"@
    ||| name == "proxy-authorization"@
    ||| name == "te"@
    ||| name == "trailer"@
    ||| name == "transfer-encoding"@
}

/// Whether fields of that name are found by one of some texts.
pub open spec fn is_listed(tokens: Seq<Seq<char>>, name: Seq<char>) -> bool {
    exists|k: int| 0 <= k < tokens.len() && key_of(#[trigger] tokens[k]) == Some(name)
}

/// The fields that survive while an upgrade is preserved.
pub open spec fn survives(name: Seq<char>) -> bool {
    name == "upgrade"@ || name == "connection"@
}

/// Whether a field concerns this connection only: it is listed by a
/// `Connection` field and found by its name, or is hop-by-hop by definition.
/// While an upgrade is preserved, `Connection` and `Upgrade` themselves are not
/// taken for such.
pub open spec fn is_hop(
    entries: Seq<(Seq<char>, Seq<u8>)>,
    preserve_upgrade: bool,
    name: Seq<char>,
) -> bool {
    ||| is_listed(connection_tokens(values_of(entries, "connection"@)), name) && !(preserve_upgrade
        && survives(name))
    ||| always_hop(name)
    ||| !preserve_upgrade && survives(name)
}

/// `after` is `before` without its hop-by-hop fields.
pub open spec fn stripped(
    before: Seq<(Seq<char>, Seq<u8>)>,
    after: Seq<(Seq<char>, Seq<u8>)>,
    preserve_upgrade: bool,
) -> bool {
    forall|n: Seq<char>|
        #![trigger values_of(after, n)]
        values_of(after, n) == (if is_hop(before, preserve_upgrade, n) {
            Seq::<Seq<u8>>::empty()
        } else {
            values_of(before, n)
        })
}

/// The header names that this library looks for are found under themselves.
pub proof fn lemma_names_found()
    ensures
        key_of("proxy-connection"@) == Some("proxy-connection"@),
        key_of("keep-alive"@) == Some("keep-alive"@),
        key_of("proxy-authenticate"@) == Some("proxy-authenticate"@),
        key_of("proxy-authorization"@) == Some("proxy-authorization"@),
        key_of("te"@) == Some("te"@),
        key_of("trailer"@) == Some("trailer"@),
        key_of("transfer-encoding"@) == Some("transfer-encoding"@),
        key_of("connection"@) == Some("connection"@),
        key_of("upgrade"@) == Some("upgrade"@),
        key_of("host"@) == Some("host"@),
        key_of("content-type"@) == Some("content-type"@),
{
    reveal_strlit("proxy-connection");
    reveal_strlit("keep-alive");
    reveal_strlit("proxy-authenticate");
    reveal_strlit("proxy-authorization");
    reveal_strlit("te");
    reveal_strlit("trailer");
    reveal_strlit("transfer-encoding");
    reveal_strlit("connection");
    reveal_strlit("upgrade");
    reveal_strlit("host");
    reveal_strlit("content-type");
    lemma_key_of_token("proxy-connection"@);
    assert(text::lower("proxy-connection"@) =~= "proxy-connection"@);
    lemma_key_of_token("keep-alive"@);
    assert(text::lower("keep-alive"@) =~= "keep-alive"@);
    lemma_key_of_token("proxy-authenticate"@);
    assert(text::lower("proxy-authenticate"@) =~= "proxy-authenticate"@);
    lemma_key_of_token("proxy-authorization"@);
    assert(text::lower("proxy-authorization"@) =~= "proxy-authorization"@);
    lemma_key_of_token("te"@);
    assert(text::lower("te"@) =~= "te"@);
    lemma_key_of_token("trailer"@);
    assert(text::lower("trailer"@) =~= "trailer"@);
    lemma_key_of_token("transfer-encoding"@);
    assert(text::lower("transfer-encoding"@) =~= "transfer-encoding"@);
    lemma_key_of_token("connection"@);
    assert(text::lower("connection"@) =~= "connection"@);
    lemma_key_of_token("upgrade"@);
    assert(text::lower("upgrade"@) =~= "upgrade"@);
    lemma_key_of_token("host"@);
    assert(text::lower("host"@) =~= "host"@);
    lemma_key_of_token("content-type"@);
    assert(text::lower("content-type"@) =~= "content-type"@);
}

/// A text in lower case by which a surviving field is found is its name.
proof fn lemma_survivor(token: Seq<char>)
    requires
        text::lower(token) == token,
        key_of(token) is Some,
        survives(key_of(token)->0),
    ensures
        key_of(token) == Some(token),
{
    let key = key_of(token)->0;
    reveal_strlit("upgrade");
    reveal_strlit("connection");
    assert(!key.contains('\0'));
    lemma_token_of_key(token);
    lemma_key_of_token(token);
}

/// Every name that a `Connection` field lists is in lower case.
proof fn lemma_tokens_lower(values: Seq<Seq<u8>>, k: int)
    requires
        0 <= k < connection_tokens(values).len(),
    ensures
        text::lower(connection_tokens(values)[k]) == connection_tokens(values)[k],
    decreases values.len(),
{
    let first = value_tokens(values[0]);
    if k < first.len() {
        let p = text::pieces(value_text(values[0]), ',')[k];
        assert(connection_tokens(values)[k] == text::lower(text::trimmed(p)));
        text::lemma_lower_twice(text::trimmed(p));
    } else {
        lemma_tokens_lower(values.skip(1), k - first.len());
        assert(connection_tokens(values)[k] == connection_tokens(values.skip(1))[k - first.len()]);
    }
}

/// Remove the hop-by-hop fields, those that a `Connection` field lists among
/// them. With `preserve_upgrade`, `Connection` and `Upgrade` survive so that
/// a switch of protocols can pass through.
pub fn strip_hop_headers(headers: &mut http::HeaderMap, preserve_upgrade: bool)
    ensures
        stripped(header_entries(*old(headers)), header_entries(*final(headers)), preserve_upgrade),
{
    let values = header_values(headers, "connection");
    let ghost before = header_entries(*headers);
    proof {
        lemma_names_found();
    }
    let names = named_by_connection(&values);
    let ghost tokens = connection_tokens(values_of(before, "connection"@));
    let mut i: usize = 0;
    while i < names.len()
        invariant
            i <= names@.len(),
            tokens == text::texts(names@),
            tokens == connection_tokens(values_of(before, "connection"@)),
            key_of("upgrade"@) == Some("upgrade"@),
            key_of("connection"@) == Some("connection"@),
            forall|n: Seq<char>|
                #![trigger values_of(header_entries(*headers), n)]
                values_of(header_entries(*headers), n) == (if is_listed(tokens.take(i as int), n)
                    && !(preserve_upgrade && survives(n)) {
                    Seq::<Seq<u8>>::empty()
                } else {
                    values_of(before, n)
                }),
        decreases names@.len() - i,
    {
        let ghost was = header_entries(*headers);
        let ghost token = tokens[i as int];
        proof {
            assert(token == names@[i as int]@);
            lemma_tokens_lower(values_of(before, "connection"@), i as int);
            if key_of(token) is Some && survives(key_of(token)->0) {
                lemma_survivor(token);
            }
        }
        let kept = text::same_text(names[i].as_str(), "upgrade") || text::same_text(
            names[i].as_str(),
            "connection",
        );
        if !(preserve_upgrade && kept) {
            remove_header(headers, names[i].as_str());
        }
        proof {
            assert forall|n: Seq<char>|
                #![trigger values_of(header_entries(*headers), n)]
                values_of(header_entries(*headers), n) == (if is_listed(tokens.take(i + 1), n)
                    && !(preserve_upgrade && survives(n)) {
                    Seq::<Seq<u8>>::empty()
                } else {
                    values_of(before, n)
                }) by {
                let now = values_of(header_entries(*headers), n);
                let earlier = values_of(was, n);
                let fewer = tokens.take(i as int);
                let more = tokens.take(i + 1);
                assert(more[i as int] == token);
                if is_listed(fewer, n) {
                    let j = choose|j: int|
                        0 <= j < fewer.len() && key_of(#[trigger] fewer[j]) == Some(n);
                    assert(more[j] == fewer[j]);
                }
                if is_listed(more, n) && key_of(token) != Some(n) {
                    let j = choose|j: int|
                        0 <= j < more.len() && key_of(#[trigger] more[j]) == Some(n);
                    assert(fewer[j] == more[j]);
                }
            }
        }
        i += 1;
    }
    proof {
        assert(tokens.take(i as int) =~= tokens);
    }
    remove_header(headers, "proxy-connection");
    remove_header(headers, "keep-alive");
    remove_header(headers, "proxy-authenticate");
    remove_header(headers, "proxy-authorization");
    remove_header(headers, "te");
    remove_header(headers, "trailer");
    remove_header(headers, "transfer-encoding");
    if !preserve_upgrade {
        remove_header(headers, "connection");
        remove_header(headers, "upgrade");
    }
}

/// Whether the map holds a field of that name.
pub fn has_header(headers: &http::HeaderMap, name: &str) -> (r: bool)
    ensures
        r == (found_by(header_entries(*headers), name@).len() > 0),
{
    let values = header_values(headers, name);
    values.len() > 0
}

/// The first value under a name, if there is one and it is text.
pub fn header_text(headers: &http::HeaderMap, name: &str) -> (r: Option<String>)
    ensures
        ({
            let values = found_by(header_entries(*headers), name@);
            match r {
                Some(s) => values.len() > 0 && is_text(values[0]) && s@ == value_text(values[0]),
                None => values.len() == 0 || !is_text(values[0]),
            }
        }),
{
    let values = header_values(headers, name);
    let ghost all = found_by(header_entries(*headers), name@);
    if values.len() == 0 {
        return None;
    }
    proof {
        assert(all[0] == values@[0]@);
    }
    text_of_value(&values[0])
}

/// Stripping twice removes no more than stripping once.
pub proof fn law_strip_is_idempotent(
    a: Seq<(Seq<char>, Seq<u8>)>,
    b: Seq<(Seq<char>, Seq<u8>)>,
    c: Seq<(Seq<char>, Seq<u8>)>,
    preserve_upgrade: bool,
)
    requires
        stripped(a, b, preserve_upgrade),
        stripped(b, c, preserve_upgrade),
    ensures
        forall|n: Seq<char>| #[trigger] values_of(c, n) == values_of(b, n),
{
    assert forall|n: Seq<char>| #[trigger] values_of(c, n) == values_of(b, n) by {
        let now = values_of(b, "connection"@);
        let then = values_of(a, "connection"@);
        if is_hop(b, preserve_upgrade, n) {
            if is_listed(connection_tokens(now), n) {
                assert(now == then);
                assert(is_hop(a, preserve_upgrade, n));
            }
            assert(is_hop(a, preserve_upgrade, n));
            assert(values_of(b, n) == Seq::<Seq<u8>>::empty());
        }
    }
}

/// A preserved upgrade keeps its `Upgrade` and `Connection` fields.
pub proof fn law_upgrade_survives(
    before: Seq<(Seq<char>, Seq<u8>)>,
    after: Seq<(Seq<char>, Seq<u8>)>,
)
    requires
        stripped(before, after, true),
    ensures
        values_of(after, "upgrade"@) == values_of(before, "upgrade"@),
        values_of(after, "connection"@) == values_of(before, "connection"@),
{
    reveal_strlit("proxy-connection");
    reveal_strlit("keep-alive");
    reveal_strlit("proxy-authenticate");
    reveal_strlit("proxy-authorization");
    reveal_strlit("te");
    reveal_strlit("trailer");
    reveal_strlit("transfer-encoding");
    reveal_strlit("connection");
    reveal_strlit("upgrade");
    assert("trailer"@[0] != "upgrade"@[0]);
    assert("keep-alive"@[0] != "connection"@[0]);
    assert(!always_hop("upgrade"@));
    assert(!always_hop("connection"@));
}

/// A list of names in a header value, separated by commas, has this name
/// between the positions `i` and `j`: nothing stands around it but blanks, and
/// it is spelled in either case.
pub open spec fn names_at(
    value: Seq<u8>,
    name: Seq<char>,
    i: int,
    a: int,
    b: int,
    j: int,
) -> bool {
    &&& 0 <= i <= a <= b <= j <= value.len()
    &&& i == 0 || value[i - 1] == 44u8
    &&& j == value.len() || value[j] == 44u8
    &&& forall|k: int| i <= k < j ==> #[trigger] value[k] != 44u8
    &&& forall|k: int| i <= k < a || b <= k < j ==> #[trigger] value[k] == 32u8 || value[k] == 9u8
    &&& b - a == name.len()
    &&& forall|k: int|
        0 <= k < name.len() ==> text::same_but_for_case(
            #[trigger] name[k],
            value[a + k] as char,
        )
}

/// A header value of visible ASCII, spaces and tabs lists this name.
pub open spec fn names_field(value: Seq<u8>, name: Seq<char>) -> bool {
    &&& forall|k: int|
        0 <= k < value.len() ==> (32 <= #[trigger] value[k] && value[k] < 127) || value[k] == 9
    &&& exists|i: int, a: int, b: int, j: int| names_at(value, name, i, a, b, j)
}

/// A name of a `Connection` field comes from one of its values.
proof fn lemma_token_source(values: Seq<Seq<u8>>, k: int) -> (r: (int, int))
    requires
        0 <= k < connection_tokens(values).len(),
    ensures
        0 <= r.0 < values.len(),
        0 <= r.1 < value_tokens(values[r.0]).len(),
        connection_tokens(values)[k] == value_tokens(values[r.0])[r.1],
    decreases values.len(),
{
    let first = value_tokens(values[0]);
    if k < first.len() {
        (0, k)
    } else {
        let r = lemma_token_source(values.skip(1), k - first.len());
        assert(values.skip(1)[r.0] == values[r.0 + 1]);
        (r.0 + 1, r.1)
    }
}

/// Every name in a `Connection` value is one of those listed.
proof fn lemma_token_target(values: Seq<Seq<u8>>, v: int, p: int) -> (k: int)
    requires
        0 <= v < values.len(),
        0 <= p < value_tokens(values[v]).len(),
    ensures
        0 <= k < connection_tokens(values).len(),
        connection_tokens(values)[k] == value_tokens(values[v])[p],
    decreases values.len(),
{
    let first = value_tokens(values[0]);
    if v == 0 {
        p
    } else {
        assert(values.skip(1)[v - 1] == values[v]);
        let k = lemma_token_target(values.skip(1), v - 1, p);
        k + first.len()
    }
}

/// A name that is found among those of the `Connection` values stands in one
/// of them.
pub proof fn lemma_listed_is_named(values: Seq<Seq<u8>>, name: Seq<char>)
    requires
        !name.contains('\0'),
        is_listed(connection_tokens(values), name),
    ensures
        exists|v: int| 0 <= v < values.len() && names_field(#[trigger] values[v], name),
{
    let tokens = connection_tokens(values);
    let t = choose|k: int| 0 <= k < tokens.len() && key_of(#[trigger] tokens[k]) == Some(name);
    let (v, p) = lemma_token_source(values, t);
    let value = values[v];
    let vt = value_text(value);
    let piece = text::pieces(vt, ',')[p];
    let spelled = text::trimmed(piece);
    assert(tokens[t] == text::lower(spelled));
    lemma_token_of_key(tokens[t]);
    lemma_key_of_token(tokens[t]);
    text::lemma_lower_twice(spelled);
    assert(name == text::lower(spelled));
    let i = text::lemma_piece_stands(vt, ',', p);
    let j = i + piece.len();
    text::law_trimming_takes_the_space_around(piece);
    let (left, right) = choose|x: Seq<char>, y: Seq<char>|
        piece == #[trigger] (x + spelled + y) && text::all_space(x) && text::all_space(y);
    let a = i + left.len();
    let b = a + spelled.len();
    assert forall|k: int| i <= k < j implies #[trigger] value[k] as char == piece[k - i] by {
        assert(vt.subrange(i, j)[k - i] == vt[k]);
    }
    assert forall|k: int| 0 <= k < value.len() implies (32 <= #[trigger] value[k] && value[k] < 127)
        || value[k] == 9 by {
        assert(visible(value[k]));
    }
    assert forall|k: int| i <= k < a || b <= k < j implies #[trigger] value[k] == 32u8 || value[k]
        == 9u8 by {
        if k < a {
            assert(piece[k - i] == left[k - i]);
        } else {
            assert(piece[k - i] == right[k - b]);
        }
        assert(text::is_space(value[k] as char));
        assert(visible(value[k]));
    }
    assert forall|k: int| i <= k < j implies #[trigger] value[k] != 44u8 by {
        if value[k] == 44u8 {
            assert(piece[k - i] == ',');
        }
    }
    assert forall|k: int| 0 <= k < name.len() implies text::same_but_for_case(
        #[trigger] name[k],
        value[a + k] as char,
    ) by {
        assert(piece[a + k - i] == spelled[k]);
        assert(name[k] == text::lower_char(spelled[k]));
        assert(value[a + k] as char == spelled[k]);
        text::law_folding_is_case_only(spelled[k], name[k]);
    }
    if i > 0 {
        assert(vt[i - 1] == value[i - 1] as char);
    }
    if j < value.len() {
        assert(vt[j] == value[j] as char);
    }
    assert(names_at(value, name, i, a, b, j));
}

/// A token in lower case that stands in a `Connection` value is found among
/// the names of these values.
proof fn lemma_named_is_listed(values: Seq<Seq<u8>>, v: int, name: Seq<char>)
    requires
        0 <= v < values.len(),
        names_field(values[v], name),
        0 < name.len() <= 65_535,
        forall|k: int|
            0 <= k < name.len() ==> token_char(#[trigger] name[k]) && !('A' <= name[k] && name[k]
                <= 'Z'),
    ensures
        is_listed(connection_tokens(values), name),
{
    let value = values[v];
    let vt = value_text(value);
    let (i, a, b, j) = choose|i: int, a: int, b: int, j: int| names_at(value, name, i, a, b, j);
    assert(is_text(value));
    let piece = vt.subrange(i, j);
    let left = vt.subrange(i, a);
    let spelled = vt.subrange(a, b);
    let right = vt.subrange(b, j);
    assert(piece =~= left + spelled + right);
    assert forall|k: int| 0 <= k < left.len() implies text::is_space(#[trigger] left[k]) by {
        assert(value[i + k] == 32u8 || value[i + k] == 9u8);
    }
    assert forall|k: int| 0 <= k < right.len() implies text::is_space(#[trigger] right[k]) by {
        assert(value[b + k] == 32u8 || value[b + k] == 9u8);
    }
    assert forall|k: int| 0 <= k < name.len() implies text::lower_char(#[trigger] spelled[k])
        == name[k] && !text::is_space(spelled[k]) by {
        assert(token_char(name[k]));
        assert(text::same_but_for_case(name[k], value[a + k] as char));
        text::law_folding_is_case_only(spelled[k], name[k]);
    }
    assert(text::lower(spelled) =~= name);
    assert(spelled[spelled.len() - 1] == spelled.last());
    text::law_trimming_undoes_padding(left, spelled, right);
    if piece.contains(',') {
        let k = choose|k: int| 0 <= k < piece.len() && piece[k] == ',';
        assert(value[i + k] as char == ',');
        assert(value[i + k] == 44u8);
    }
    let p = text::lemma_standing_piece(vt, ',', i, j);
    assert(value_tokens(value)[p] == name);
    let t = lemma_token_target(values, v, p);
    lemma_key_of_token(name);
    text::lemma_lower_twice(spelled);
    assert(key_of(name) == Some(name));
    assert(key_of(connection_tokens(values)[t]) == Some(name));
}

/// An end-to-end field passes: one that no `Connection` field lists, and that
/// is none of the fields which concern one connection by definition, keeps all
/// of its values, in order.
pub proof fn law_end_to_end_fields_are_kept(
    before: Seq<(Seq<char>, Seq<u8>)>,
    after: Seq<(Seq<char>, Seq<u8>)>,
    preserve_upgrade: bool,
    name: Seq<char>,
)
    requires
        stripped(before, after, preserve_upgrade),
        !name.contains('\0'),
        forall|v: int|
            0 <= v < values_of(before, "connection"@).len() ==> !names_field(
                #[trigger] values_of(before, "connection"@)[v],
                name,
            ),
        name != "proxy-connection"@,
        name != "keep-alive"@,
        name != "proxy-authenticate"@,
        name != "proxy-authorization"@,
        name != "te"@,
        name != "trailer"@,
        name != "transfer-encoding"@,
        name != "connection"@,
        name != "upgrade"@,
    ensures
        values_of(after, name) == values_of(before, name),
{
    let values = values_of(before, "connection"@);
    if is_listed(connection_tokens(values), name) {
        lemma_listed_is_named(values, name);
    }
}

/// Credentials, cookies and the content type are end-to-end: they pass unless
/// a `Connection` field lists them.
pub proof fn law_credentials_and_content_pass(
    before: Seq<(Seq<char>, Seq<u8>)>,
    after: Seq<(Seq<char>, Seq<u8>)>,
    preserve_upgrade: bool,
)
    requires
        stripped(before, after, preserve_upgrade),
        forall|v: int|
            0 <= v < values_of(before, "connection"@).len() ==> {
                let value = #[trigger] values_of(before, "connection"@)[v];
                &&& !names_field(value, "authorization"@)
                &&& !names_field(value, "cookie"@)
                &&& !names_field(value, "content-type"@)
            },
    ensures
        values_of(after, "authorization"@) == values_of(before, "authorization"@),
        values_of(after, "cookie"@) == values_of(before, "cookie"@),
        values_of(after, "content-type"@) == values_of(before, "content-type"@),
{
    reveal_strlit("proxy-connection");
    reveal_strlit("keep-alive");
    reveal_strlit("proxy-authenticate");
    reveal_strlit("proxy-authorization");
    reveal_strlit("te");
    reveal_strlit("trailer");
    reveal_strlit("transfer-encoding");
    reveal_strlit("connection");
    reveal_strlit("upgrade");
    reveal_strlit("authorization");
    reveal_strlit("cookie");
    reveal_strlit("content-type");
    assert("content-type"@[3] != "connection"@[3]);
    assert("cookie"@.len() == 6 && "authorization"@.len() == 13 && "content-type"@.len() == 12);
    law_end_to_end_fields_are_kept(before, after, preserve_upgrade, "authorization"@);
    law_end_to_end_fields_are_kept(before, after, preserve_upgrade, "cookie"@);
    law_end_to_end_fields_are_kept(before, after, preserve_upgrade, "content-type"@);
}

/// A hop-by-hop field goes no further: the fields which concern one connection
/// by definition go, and so does every field that a `Connection` field lists.
/// Only a preserved upgrade keeps its `Connection` and `Upgrade` fields.
pub proof fn law_hop_by_hop_fields_go(
    before: Seq<(Seq<char>, Seq<u8>)>,
    after: Seq<(Seq<char>, Seq<u8>)>,
    preserve_upgrade: bool,
    name: Seq<char>,
    v: int,
)
    requires
        stripped(before, after, preserve_upgrade),
    ensures
        values_of(after, "proxy-connection"@).len() == 0,
        values_of(after, "keep-alive"@).len() == 0,
        values_of(after, "proxy-authenticate"@).len() == 0,
        values_of(after, "proxy-authorization"@).len() == 0,
        values_of(after, "te"@).len() == 0,
        values_of(after, "trailer"@).len() == 0,
        values_of(after, "transfer-encoding"@).len() == 0,
        !preserve_upgrade ==> values_of(after, "connection"@).len() == 0 && values_of(
            after,
            "upgrade"@,
        ).len() == 0,
        ({
            &&& 0 <= v < values_of(before, "connection"@).len()
            &&& names_field(values_of(before, "connection"@)[v], name)
            &&& 0 < name.len() <= 65_535
            &&& forall|k: int|
                0 <= k < name.len() ==> token_char(#[trigger] name[k]) && !('A' <= name[k]
                    && name[k] <= 'Z')
            &&& !(preserve_upgrade && (name == "connection"@ || name == "upgrade"@))
        }) ==> values_of(after, name).len() == 0,
{
    let values = values_of(before, "connection"@);
    if 0 <= v < values.len() && names_field(values[v], name) && 0 < name.len() <= 65_535 && (
    forall|k: int|
        0 <= k < name.len() ==> token_char(#[trigger] name[k]) && !('A' <= name[k] && name[k]
            <= 'Z')) {
        lemma_named_is_listed(values, v, name);
    }
}

/// Stripping brings no field in: what a header map hands out under a name
/// afterwards is all that it did before, or nothing.
pub proof fn law_stripping_brings_nothing_in(
    before: Seq<(Seq<char>, Seq<u8>)>,
    after: Seq<(Seq<char>, Seq<u8>)>,
    preserve_upgrade: bool,
    name: Seq<char>,
)
    requires
        stripped(before, after, preserve_upgrade),
    ensures
        values_of(after, name).len() == 0 || values_of(after, name) == values_of(before, name),
{
}

/// The stored form of headers is lines of `name: value`, one for each field
/// and in their order.
pub proof fn law_stored_headers_are_lines(entries: Seq<(Seq<char>, Seq<u8>)>)
    requires
        forall|i: int|
            0 <= i < entries.len() ==> {
                &&& valid_name((#[trigger] entries[i]).0)
                &&& valid_value(entries[i].1)
                &&& valid_utf8(entries[i].1)
            },
    ensures
        text::lines_of(decode_utf8(header_blob(entries))) == entries.map_values(
            |e: (Seq<char>, Seq<u8>)| e.0 + seq![':', ' '] + decode_utf8(e.1),
        ),
{
    lemma_blob_encodes_text(entries);
    encode_utf8_decode_utf8(entries_text(entries));
    lemma_text_lines(entries);
}

/// The lines of the text of a list of header fields.
proof fn lemma_text_lines(entries: Seq<(Seq<char>, Seq<u8>)>)
    requires
        forall|i: int|
            0 <= i < entries.len() ==> {
                &&& valid_name((#[trigger] entries[i]).0)
                &&& valid_value(entries[i].1)
                &&& valid_utf8(entries[i].1)
            },
    ensures
        text::lines_of(entries_text(entries)) == entries.map_values(
            |e: (Seq<char>, Seq<u8>)| e.0 + seq![':', ' '] + decode_utf8(e.1),
        ),
    decreases entries.len(),
{
    let want = entries.map_values(
        |e: (Seq<char>, Seq<u8>)| e.0 + seq![':', ' '] + decode_utf8(e.1),
    );
    let all = entries_text(entries);
    if entries.len() == 0 {
        assert(text::lines_of(all) =~= want);
    } else {
        let e = entries[0];
        let line = entry_line(e);
        let rest = entries_text(entries.skip(1));
        reveal_strlit(": ");
        assert(": "@ =~= seq![':', ' ']);
        lemma_entry_one_line(e);
        text::lemma_before_char(line, '\n', rest);
        lemma_text_lines(entries.skip(1));
        assert(all.take(line.len() as int) =~= line);
        assert(all.skip(line.len() as int + 1) =~= rest);
        assert(text::lines_of(all) == seq![line] + text::lines_of(rest));
        assert(want =~= seq![line] + entries.skip(1).map_values(
            |e: (Seq<char>, Seq<u8>)| e.0 + seq![':', ' '] + decode_utf8(e.1),
        ));
    }
}

/// A stored line is a field exactly when it holds a colon and a space: the
/// name is what stands before the first, the value all that follows it.
pub proof fn law_stored_line_is_a_field(name: Seq<char>, value: Seq<char>, line: Seq<char>)
    requires
        forall|i: int| 0 <= i < name.len() ==> #[trigger] name[i] != ':',
        forall|i: int|
            0 <= i < line.len() - 1 ==> #[trigger] line[i] != ':' || line[i + 1] != ' ',
    ensures
        fields_in(seq![name + seq![':', ' '] + value]) == seq![(name, value)],
        fields_in(seq![line]) == Seq::<(Seq<char>, Seq<char>)>::empty(),
{
    let whole = name + seq![':', ' '] + value;
    let n = name.len() as int;
    reveal_strlit(": ");
    reveal_with_fuel(fields_in, 2);
    assert(whole.subrange(n, n + 2) =~= ": "@);
    assert forall|j: int| 0 <= j < n implies !text::occurs_at(whole, ": "@, j) by {
        assert(whole.subrange(j, j + 2)[0] == name[j]);
    }
    text::lemma_cut_at(whole, ": "@, n);
    assert(whole.take(n) =~= name);
    assert(whole.skip(n + 2) =~= value);
    assert(seq![whole].skip(1) =~= Seq::<Seq<char>>::empty());
    assert(fields_in(seq![whole]) =~= seq![(name, value)]);
    assert forall|j: int| !text::occurs_at(line, ": "@, j) by {
        if text::occurs_at(line, ": "@, j) {
            assert(line.subrange(j, j + 2)[0] == ':');
            assert(line.subrange(j, j + 2)[1] == ' ');
            assert(line[j] == ':' && line[j + 1] == ' ');
        }
    }
    assert(seq![line].skip(1) =~= Seq::<Seq<char>>::empty());
}

/// A header value is text exactly when it is made of visible ASCII, spaces and
/// tabs, and its text has a character of the same code for every byte.
pub proof fn law_header_text_keeps_bytes(value: Seq<u8>)
    ensures
        is_text(value) <==> forall|i: int|
            0 <= i < value.len() ==> #[trigger] value[i] == 9u8 || 32u8 <= value[i] && value[i]
                <= 126u8,
        value_text(value).len() == value.len(),
        forall|i: int|
            0 <= i < value.len() ==> #[trigger] value_text(value)[i] as u32 == value[i] as u32,
{
    if is_text(value) {
        assert forall|i: int| 0 <= i < value.len() implies #[trigger] value[i] == 9u8 || 32u8
            <= value[i] && value[i] <= 126u8 by {
            assert(visible(value[i]));
        }
    }
}

/// The values under a name are those of the fields that have it, one for each
/// and in their order: a further field adds its value at the end of those of
/// its name and changes no other.
pub proof fn law_values_follow_the_fields(
    entries: Seq<(Seq<char>, Seq<u8>)>,
    name: Seq<char>,
    value: Seq<u8>,
    other: Seq<char>,
)
    ensures
        values_of(Seq::empty(), name).len() == 0,
        values_of(entries.push((name, value)), name) == values_of(entries, name).push(value),
        other != name ==> values_of(entries.push((name, value)), other) == values_of(
            entries,
            other,
        ),
        values_of(entries, name).len() > 0 <==> exists|i: int|
            0 <= i < entries.len() && (#[trigger] entries[i]).0 == name,
{
    assert(entries.push((name, value)).drop_last() =~= entries);
    lemma_some_value(entries, name);
}

/// A name has a value exactly where a field has that name.
proof fn lemma_some_value(entries: Seq<(Seq<char>, Seq<u8>)>, name: Seq<char>)
    ensures
        values_of(entries, name).len() > 0 <==> exists|i: int|
            0 <= i < entries.len() && (#[trigger] entries[i]).0 == name,
    decreases entries.len(),
{
    if entries.len() > 0 {
        let fewer = entries.drop_last();
        lemma_some_value(fewer, name);
        assert(entries[entries.len() - 1] == entries.last());
        if exists|i: int| 0 <= i < fewer.len() && (#[trigger] fewer[i]).0 == name {
            let i = choose|i: int| 0 <= i < fewer.len() && (#[trigger] fewer[i]).0 == name;
            assert(entries[i].0 == name);
        }
        if exists|i: int| 0 <= i < entries.len() && (#[trigger] entries[i]).0 == name {
            let i = choose|i: int| 0 <= i < entries.len() && (#[trigger] entries[i]).0 == name;
            if i < fewer.len() {
                assert(fewer[i].0 == name);
            }
        }
    }
}

/// A field is looked up by its name in either case: a token finds the fields
/// whose name is the token in lower case.
pub proof fn law_lookup_ignores_case(entries: Seq<(Seq<char>, Seq<u8>)>, name: Seq<char>)
    requires
        0 < name.len() <= 65_535,
        forall|i: int| 0 <= i < name.len() ==> token_char(#[trigger] name[i]),
    ensures
        found_by(entries, name) == values_of(entries, text::lower(name)),
        found_by(entries, text::lower(name)) == found_by(entries, name),
{
    lemma_key_of_token(name);
    let low = text::lower(name);
    assert forall|i: int| 0 <= i < low.len() implies token_char(#[trigger] low[i]) by {
        assert(token_char(name[i]));
        text::law_folding_is_case_only(name[i], low[i]);
    }
    lemma_key_of_token(low);
    text::lemma_lower_twice(name);
}

/// The text of a header is that of its first value, byte by byte, if it has
/// one that is text.
pub proof fn law_header_text_is_the_first_value(
    headers: &http::HeaderMap,
    name: &str,
    r: Option<String>,
)
    requires
        call_ensures(header_text, (headers, name), r),
    ensures
        r is Some ==> {
            let value = found_by(header_entries(*headers), name@)[0];
            &&& r->0@.len() == value.len()
            &&& forall|i: int|
                0 <= i < value.len() ==> #[trigger] r->0@[i] as u32 == value[i] as u32
        },
        found_by(header_entries(*headers), name@).len() == 0 ==> r is None,
{
    if r is Some {
        law_header_text_keeps_bytes(found_by(header_entries(*headers), name@)[0]);
    }
}

/// Stripping a header map leaves every end-to-end field as it was, whatever
/// its name, and takes out the fields which concern one connection by
/// definition.
pub proof fn law_stripped_map_keeps_end_to_end_fields(preserve_upgrade: bool, name: Seq<char>)
    requires
        !name.contains('\0'),
        name != "proxy-connection"@,
        name != "keep-alive"@,
        name != "proxy-authenticate"@,
        name != "proxy-authorization"@,
        name != "te"@,
        name != "trailer"@,
        name != "transfer-encoding"@,
        name != "connection"@,
        name != "upgrade"@,
    ensures
        forall|headers: &mut http::HeaderMap|
            #[trigger] call_ensures(strip_hop_headers, (headers, preserve_upgrade), ()) ==> {
                let before = header_entries(*headers);
                let after = header_entries(*final(headers));
                &&& (forall|v: int|
                    0 <= v < values_of(before, "connection"@).len() ==> !names_field(
                        #[trigger] values_of(before, "connection"@)[v],
                        name,
                    )) ==> values_of(after, name) == values_of(before, name)
                &&& values_of(after, "proxy-authorization"@).len() == 0
                &&& values_of(after, "proxy-connection"@).len() == 0
                &&& values_of(after, "keep-alive"@).len() == 0
                &&& values_of(after, "te"@).len() == 0
                &&& values_of(after, "transfer-encoding"@).len() == 0
                &&& !preserve_upgrade ==> values_of(after, "upgrade"@).len() == 0
                &&& preserve_upgrade ==> values_of(after, "upgrade"@) == values_of(
                    before,
                    "upgrade"@,
                )
            },
{
    assert forall|headers: &mut http::HeaderMap|
        #[trigger] call_ensures(strip_hop_headers, (headers, preserve_upgrade), ()) implies {
        let before = header_entries(*headers);
        let after = header_entries(*final(headers));
        &&& (forall|v: int|
            0 <= v < values_of(before, "connection"@).len() ==> !names_field(
                #[trigger] values_of(before, "connection"@)[v],
                name,
            )) ==> values_of(after, name) == values_of(before, name)
        &&& values_of(after, "proxy-authorization"@).len() == 0
        &&& values_of(after, "proxy-connection"@).len() == 0
        &&& values_of(after, "keep-alive"@).len() == 0
        &&& values_of(after, "te"@).len() == 0
        &&& values_of(after, "transfer-encoding"@).len() == 0
        &&& !preserve_upgrade ==> values_of(after, "upgrade"@).len() == 0
        &&& preserve_upgrade ==> values_of(after, "upgrade"@) == values_of(before, "upgrade"@)
    } by {
        let before = header_entries(*headers);
        let after = header_entries(*final(headers));
        if forall|v: int|
            0 <= v < values_of(before, "connection"@).len() ==> !names_field(
                #[trigger] values_of(before, "connection"@)[v],
                name,
            ) {
            law_end_to_end_fields_are_kept(before, after, preserve_upgrade, name);
        }
        law_hop_by_hop_fields_go(before, after, preserve_upgrade, name, 0);
        if preserve_upgrade {
            law_upgrade_survives(before, after);
        }
    }
}

} // verus!
