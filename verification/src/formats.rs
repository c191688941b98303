//! Text formats the benchmark reads and writes through outside libraries:
//! base64, JSON and TOML.
use vstd::prelude::*;

verus! {

/// The character that stands for six bits in base64.
pub open spec fn base64_char(bits: nat) -> char {
    if bits < 26 {
        (65 + bits) as char
    } else if bits < 52 {
        (97 + (bits - 26)) as char
    } else if bits < 62 {
        (48 + (bits - 52)) as char
    } else if bits == 62 {
        '+'
    } else {
        '/'
    }
}

/// The four characters of three bytes.
pub open spec fn base64_group(a: u8, b: u8, c: u8) -> Seq<char> {
    let bits = (a as nat * 256 + b as nat) * 256 + c as nat;
    seq![
        base64_char(bits / 262144),
        base64_char(bits / 4096 % 64),
        base64_char(bits / 64 % 64),
        base64_char(bits % 64),
    ]
}

/// Some bytes in base64, with padding.
pub open spec fn base64_text(bytes: Seq<u8>) -> Seq<char>
    decreases bytes.len(),
{
    if bytes.len() == 0 {
        Seq::<char>::empty()
    } else if bytes.len() == 1 {
        base64_group(bytes[0], 0, 0).take(2) + seq!['=', '=']
    } else if bytes.len() == 2 {
        base64_group(bytes[0], bytes[1], 0).take(3) + seq!['=']
    } else {
        base64_group(bytes[0], bytes[1], bytes[2]) + base64_text(bytes.skip(3))
    }
}

/// How many characters padded base64 takes for `len` bytes.
pub open spec fn base64_len(len: nat) -> nat {
    if len % 3 == 0 {
        len / 3 * 4
    } else {
        len / 3 * 4 + 4
    }
}

/// Calls `encode` of `base64::engine::general_purpose::STANDARD`. Claims that
/// it writes the bytes in base64 with padding. The call panics where the
/// text is longer than an allocation can be.
#[verifier::external_body]
pub(crate) fn encode_base64(bytes: &[u8]) -> (text: String)
    requires
        base64_len(bytes@.len()) <= isize::MAX,
    ensures
        text@ == base64_text(bytes@),
{
    base64::Engine::encode(&base64::engine::general_purpose::STANDARD, bytes)
}

/// Base64 text is as long as [`base64_len`] says and holds nothing that would
/// have to be escaped inside a JSON string.
pub proof fn base64_needs_no_escapes(bytes: Seq<u8>)
    ensures
        base64_text(bytes).len() == base64_len(bytes.len()),
        forall|i: int|
            0 <= i < base64_text(bytes).len() ==> {
                let c = #[trigger] base64_text(bytes)[i];
                ' ' < c <= 'z' && c != '"' && c != '\\'
            },
    decreases bytes.len(),
{
    if bytes.len() >= 3 {
        base64_needs_no_escapes(bytes.skip(3));
    }
}

/// A parsed JSON value.
#[verifier::external_type_specification]
#[verifier::external_body]
pub struct ExJsonValue(serde_json::Value);

/// The names of the members of a JSON object; of any other value, none.
pub uninterp spec fn member_names(value: serde_json::Value) -> Set<Seq<char>>;

/// For a document that `serde_json` parses as an array, the member names of
/// each element in turn.
pub uninterp spec fn json_array_members(document: Seq<u8>) -> Option<Seq<Set<Seq<char>>>>;

/// Calls `serde_json::from_slice` and keeps the elements of an array. Claims
/// that whether the document is an array, how many elements it has and which
/// members each has depend on the document alone.
#[verifier::external_body]
pub(crate) fn parse_json_array(document: &[u8]) -> (entries: Option<Vec<serde_json::Value>>)
    ensures
        match entries {
            Some(values) => json_array_members(document@) == Some(
                values@.map_values(|value: serde_json::Value| member_names(value)),
            ),
            None => json_array_members(document@) is None,
        },
{
    match serde_json::from_slice(document) {
        Ok(serde_json::Value::Array(entries)) => Some(entries),
        _ => None,
    }
}

/// Calls `serde_json::Value::get` with a member name. Claims that it finds
/// something exactly when the value is an object with that member.
#[verifier::external_body]
pub(crate) fn has_member(value: &serde_json::Value, name: &str) -> (found: bool)
    ensures
        found == member_names(*value).contains(name@),
{
    value.get(name).is_some()
}

/// A parsed TOML value.
#[verifier::external_type_specification]
#[verifier::external_body]
pub struct ExTomlValue(toml::Value);

/// The strings inside a TOML value, each under the table keys that lead to
/// it; a value that is itself a string is under no key.
pub uninterp spec fn toml_strings(value: toml::Value) -> Map<Seq<Seq<char>>, Seq<char>>;

/// The strings of a document that `toml` parses, under their keys.
pub uninterp spec fn toml_document_strings(text: Seq<char>) -> Option<
    Map<Seq<Seq<char>>, Seq<char>>,
>;

/// Calls `toml::from_str` for a `toml::Value`. Claims that whether the text
/// parses, and which strings it then holds, depends on the text alone.
#[verifier::external_body]
pub(crate) fn parse_toml(text: &str) -> (value: Option<toml::Value>)
    ensures
        match value {
            Some(parsed) => toml_document_strings(text@) == Some(toml_strings(parsed)),
            None => toml_document_strings(text@) is None,
        },
{
    toml::from_str(text).ok()
}

/// Calls `toml::Value::get` with a table key. Claims that the value found
/// holds the strings that the whole value holds below that key, and that
/// there are none where nothing is found.
#[verifier::external_body]
pub(crate) fn toml_get<'a>(value: &'a toml::Value, key: &str) -> (found: Option<&'a toml::Value>)
    ensures
        match found {
            Some(inner) => forall|path: Seq<Seq<char>>| #[trigger]
                toml_strings(*inner).contains_key(path) == toml_strings(*value).contains_key(
                    seq![key@] + path,
                ) && (toml_strings(*inner).contains_key(path) ==> toml_strings(*inner)[path]
                    == toml_strings(*value)[seq![key@] + path]),
            None => forall|path: Seq<Seq<char>>|
                !#[trigger] toml_strings(*value).contains_key(seq![key@] + path),
        },
{
    value.get(key)
}

/// Calls `toml::Value::as_str`. Claims that it gives the text of a value that
/// is a string, and nothing for any other.
#[verifier::external_body]
pub(crate) fn toml_as_str(value: &toml::Value) -> (text: Option<String>)
    ensures
        match text {
            Some(s) => toml_strings(*value).contains_pair(Seq::<Seq<char>>::empty(), s@),
            None => !toml_strings(*value).contains_key(Seq::<Seq<char>>::empty()),
        },
{
    value.as_str().map(|s| s.to_string())
}

/// The string under two nested keys, if there is one.
pub open spec fn string_under(
    strings: Map<Seq<Seq<char>>, Seq<char>>,
    table: Seq<char>,
    key: Seq<char>,
) -> Option<Seq<char>> {
    if strings.contains_key(seq![table, key]) {
        Some(strings[seq![table, key]])
    } else {
        None
    }
}

/// The string `key` of the table `table` in a parsed TOML value.
pub fn toml_string_in(value: &toml::Value, table: &str, key: &str) -> (text: Option<String>)
    ensures
        match text {
            Some(s) => string_under(toml_strings(*value), table@, key@) == Some(s@),
            None => string_under(toml_strings(*value), table@, key@) is None,
        },
{
    let ghost all = toml_strings(*value);
    let ghost empty = Seq::<Seq<char>>::empty();
    proof {
        assert(seq![table@] + (seq![key@] + empty) =~= seq![table@, key@]);
        assert(seq![table@] + seq![key@] =~= seq![table@, key@]);
        assert(seq![key@] + empty =~= seq![key@]);
    }
    match toml_get(value, table) {
        Some(inner) => {
            assert(toml_strings(*inner).contains_key(seq![key@]) == all.contains_key(
                seq![table@, key@],
            ));
            match toml_get(inner, key) {
                Some(leaf) => {
                    assert(toml_strings(*leaf).contains_key(empty) == toml_strings(
                        *inner,
                    ).contains_key(seq![key@]));
                    toml_as_str(leaf)
                },
                None => {
                    assert(!toml_strings(*inner).contains_key(seq![key@] + empty));
                    None
                },
            }
        },
        None => {
            assert(!all.contains_key(seq![table@] + seq![key@]));
            None
        },
    }
}

/// The string `key` of the table `table` in a TOML text: none where the text
/// does not parse or holds no such string.
pub fn toml_string(text: &str, table: &str, key: &str) -> (found: Option<String>)
    ensures
        match toml_document_strings(text@) {
            Some(strings) => match found {
                Some(s) => string_under(strings, table@, key@) == Some(s@),
                None => string_under(strings, table@, key@) is None,
            },
            None => found is None,
        },
{
    match parse_toml(text) {
        Some(value) => toml_string_in(&value, table, key),
        None => None,
    }
}

} // verus!
