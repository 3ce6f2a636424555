use vstd::prelude::*;
use vstd::string::*;
use crate::text::{decimal, push_decimal};

verus! {

/// The lower-case hexadecimal digit for `d`, for `d < 16`.
pub open spec fn hex_digit(d: u32) -> char {
    if d < 10 { (('0' as u32) + d) as char } else { (('a' as u32) + d - 10) as char }
}

/// How serde_json writes `c` inside a string literal: quote and backslash
/// escaped, the five short escapes, `\u00XX` for the other control
/// characters below U+0020, every other character as it is.
pub open spec fn json_escape(c: char) -> Seq<char> {
    if c == '"' {
        seq!['\\', '"']
    } else if c == '\\' {
        seq!['\\', '\\']
    } else if c == '\x08' {
        seq!['\\', 'b']
    } else if c == '\t' {
        seq!['\\', 't']
    } else if c == '\n' {
        seq!['\\', 'n']
    } else if c == '\x0c' {
        seq!['\\', 'f']
    } else if c == '\r' {
        seq!['\\', 'r']
    } else if (c as u32) < 32 {
        seq!['\\', 'u', '0', '0', hex_digit((c as u32) / 16), hex_digit((c as u32) % 16)]
    } else {
        seq![c]
    }
}

/// The characters of `s`, each escaped.
pub open spec fn json_escaped(s: Seq<char>) -> Seq<char>
    decreases s.len(),
{
    if s.len() == 0 {
        Seq::empty()
    } else {
        json_escaped(s.drop_last()) + json_escape(s.last())
    }
}

/// The JSON string literal of `s`: its escaped characters between quotes.
pub open spec fn json_string_of(s: Seq<char>) -> Seq<char> {
    seq!['"'] + json_escaped(s) + seq!['"']
}

/// Relies on serde_json::to_string on a `str`: the JSON string literal of its
/// characters, escaped by the table in `format_escaped_str_contents`. It
/// writes into a `Vec`, which cannot fail, so the result is always `Ok`.
#[verifier::external_body]
fn json_quote(s: &str) -> (r: Result<String, serde_json::Error>)
    ensures
        r is Ok,
        r matches Ok(q) ==> q@ == json_string_of(s@),
{
    serde_json::to_string(s)
}

/// The items of `items` separated by commas.
pub open spec fn join_commas(items: Seq<Seq<char>>) -> Seq<char>
    decreases items.len(),
{
    if items.len() == 0 {
        Seq::empty()
    } else if items.len() == 1 {
        items[0]
    } else {
        join_commas(items.drop_last()) + seq![','] + items.last()
    }
}

pub open spec fn payload_head() -> Seq<char> {
    seq!['{', '"', 'm', 'e', 't', 'h', 'o', 'd', '"', ':', '"', 'S', 'U', 'B', 'S', 'C', 'R', 'I', 'B', 'E', '"', ',',
         '"', 'p', 'a', 'r', 'a', 'm', 's', '"', ':', '[']
}

pub open spec fn payload_id_key() -> Seq<char> {
    seq![']', ',', '"', 'i', 'd', '"', ':']
}

/// `{"method":"SUBSCRIBE","params":[p1,...,pn],"id":<id>}` with the params
/// already written as JSON values.
pub open spec fn subscription_envelope(id: nat, params: Seq<Seq<char>>) -> Seq<char> {
    payload_head() + join_commas(params) + payload_id_key() + decimal(id) + seq!['}']
}

/// The views of the strings of `v`.
pub open spec fn views_of(v: Seq<String>) -> Seq<Seq<char>> {
    v.map_values(|s: String| s@)
}

/// The JSON string literals of the strings of `v`.
pub open spec fn json_strings_of(v: Seq<String>) -> Seq<Seq<char>> {
    v.map_values(|s: String| json_string_of(s@))
}

/// The subscription payload for request `id` with the stream names already
/// written as JSON string literals.
pub fn subscription_payload(id: u64, quoted: &Vec<String>) -> (r: String)
    ensures
        r@ == subscription_envelope(id as nat, views_of(quoted@)),
{
    let mut s = String::from_str("{\"method\":\"SUBSCRIBE\",\"params\":[");
    proof {
        reveal_strlit("{\"method\":\"SUBSCRIBE\",\"params\":[");
        reveal_strlit("],\"id\":");
        reveal_strlit("}");
    }
    let mut i: usize = 0;
    while i < quoted.len()
        invariant
            i <= quoted@.len(),
            s@ == payload_head() + join_commas(views_of(quoted@).take(i as int)),
        decreases quoted@.len() - i,
    {
        let ghost before = views_of(quoted@).take(i as int);
        proof {
            reveal_strlit(",");
        }
        if i > 0 {
            s.append(",");
        }
        s.append(quoted[i].as_str());
        proof {
            let after = views_of(quoted@).take(i + 1);
            assert(after.drop_last() =~= before);
            assert(after.last() == quoted@[i as int]@);
            if i == 0 {
                assert(before =~= Seq::<Seq<char>>::empty());
                assert(join_commas(after) == after[0]);
            } else {
                assert(join_commas(after) == join_commas(before) + seq![','] + after.last());
            }
            assert(s@ =~= payload_head() + join_commas(after));
        }
        i = i + 1;
    }
    assert(views_of(quoted@).take(i as int) =~= views_of(quoted@));
    s.append("],\"id\":");
    push_decimal(&mut s, id);
    s.append("}");
    assert(s@ =~= subscription_envelope(id as nat, views_of(quoted@)));
    s
}

/// The subscription payload for request `id` over the stream names `streams`,
/// each written as a JSON string literal. Serialising strings cannot fail.
pub fn subscription_request_json(id: u64, streams: &Vec<String>) -> (r: Result<String, serde_json::Error>)
    ensures
        r is Ok,
        r matches Ok(p) ==> p@ == subscription_envelope(id as nat, json_strings_of(streams@)),
{
    let mut quoted: Vec<String> = Vec::new();
    let mut i: usize = 0;
    while i < streams.len()
        invariant
            i <= streams@.len(),
            quoted@.len() == i,
            views_of(quoted@) =~= json_strings_of(streams@).take(i as int),
        decreases streams@.len() - i,
    {
        let ghost prev = quoted@;
        match json_quote(streams[i].as_str()) {
            Ok(q) => {
                quoted.push(q);
                assert(quoted@ == prev.push(q));
                assert forall|j: int| 0 <= j < i + 1 implies views_of(quoted@)[j]
                    == json_strings_of(streams@).take(i + 1)[j] by {
                    if j < i {
                        assert(views_of(prev)[j] == json_strings_of(streams@).take(i as int)[j]);
                    } else {
                        assert(q@ == json_string_of(streams@[j]@));
                    }
                }
                assert(views_of(quoted@) =~= json_strings_of(streams@).take(i + 1));
            },
            Err(e) => {
                return Err(e);
            },
        }
        i = i + 1;
    }
    assert(json_strings_of(streams@).take(i as int) =~= json_strings_of(streams@));
    Ok(subscription_payload(id, &quoted))
}

} // verus!
