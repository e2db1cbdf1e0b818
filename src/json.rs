//! JSON text: the calls into serde_json, and the framing of objects and
//! arrays from members that are already JSON text.
use crate::text::push_all;
use vstd::prelude::*;

verus! {

/// The JSON string literal that stands for `s`.
pub uninterp spec fn json_quoted(s: Seq<char>) -> Seq<char>;

/// The members of the JSON object written in `text`, in document order, each
/// value written back as compact JSON text; `None` where `text` is no object.
pub uninterp spec fn json_object_members(text: Seq<char>) -> Option<Seq<(Seq<char>, Seq<char>)>>;

/// The items of the JSON array written in `text`, each written back as
/// compact JSON text; `None` where `text` is no array.
pub uninterp spec fn json_array_items(text: Seq<char>) -> Option<Seq<Seq<char>>>;

/// The string that the JSON text `text` holds; `None` where it holds no string.
pub uninterp spec fn json_string_value(text: Seq<char>) -> Option<Seq<char>>;

/// The members of a list of key/value strings, as character sequences.
pub open spec fn pairs_view(v: Seq<(String, String)>) -> Seq<(Seq<char>, Seq<char>)> {
    v.map_values(|p: (String, String)| (p.0@, p.1@))
}

/// No key occurs twice.
pub open spec fn keys_unique<V>(m: Seq<(Seq<char>, V)>) -> bool {
    forall|i: int, j: int| 0 <= i < j < m.len() ==> m[i].0 != m[j].0
}

/// Relies on `serde_json::to_string` on a string slice: it writes the JSON
/// string literal for the text, and cannot fail on a `str`.
#[verifier::external_body]
pub(crate) fn quote(s: &str) -> (r: String)
    ensures
        r@ == json_quoted(s@),
{
    match serde_json::to_string(s) {
        Ok(t) => t,
        Err(_) => String::new(),
    }
}

/// Relies on `serde_json::from_str` into a `serde_json::Map` (kept in document
/// order by the `preserve_order` feature, one entry per key) and on the
/// compact `Display` of `serde_json::Value`. The error is serde_json's message.
#[verifier::external_body]
pub(crate) fn object_members(text: &str) -> (r: Result<Vec<(String, String)>, String>)
    ensures
        r is Ok <==> json_object_members(text@) is Some,
        r matches Ok(v) ==> pairs_view(v@) == json_object_members(text@)->0,
        r matches Ok(v) ==> keys_unique(pairs_view(v@)),
{
    match serde_json::from_str::<serde_json::Map<String, serde_json::Value>>(text) {
        Ok(m) => Ok(m.iter().map(|(k, v)| (k.clone(), v.to_string())).collect()),
        Err(e) => Err(e.to_string()),
    }
}

/// Relies on `serde_json::from_str` into a `Vec<serde_json::Value>` and on the
/// compact `Display` of `serde_json::Value`.
#[verifier::external_body]
pub(crate) fn array_items(text: &str) -> (r: Option<Vec<String>>)
    ensures
        r is Some <==> json_array_items(text@) is Some,
        r matches Some(v) ==> crate::text::strings_view(v@) == json_array_items(text@)->0,
{
    match serde_json::from_str::<Vec<serde_json::Value>>(text) {
        Ok(items) => Some(items.iter().map(|v| v.to_string()).collect()),
        Err(_) => None,
    }
}

/// Relies on `serde_json::from_str` into a `String`: the string that a JSON
/// string literal holds.
#[verifier::external_body]
pub(crate) fn string_value(text: &str) -> (r: Option<String>)
    ensures
        match r {
            Some(s) => json_string_value(text@) == Some(s@),
            None => json_string_value(text@) is None,
        },
{
    serde_json::from_str::<String>(text).ok()
}

/// One member of an object: the quoted key, a colon, the value text.
pub open spec fn member_text(m: (Seq<char>, Seq<char>)) -> Seq<char> {
    json_quoted(m.0) + seq![':'] + m.1
}

/// The members written one after another, separated by commas.
pub open spec fn members_body(m: Seq<(Seq<char>, Seq<char>)>) -> Seq<char>
    decreases m.len(),
{
    if m.len() == 0 {
        Seq::empty()
    } else if m.len() == 1 {
        member_text(m[0])
    } else {
        members_body(m.drop_last()) + seq![','] + member_text(m.last())
    }
}

/// The JSON object with the members `m`, in that order.
pub open spec fn object_text(m: Seq<(Seq<char>, Seq<char>)>) -> Seq<char> {
    seq!['{'] + members_body(m) + seq!['}']
}

/// The items written one after another, separated by commas.
pub open spec fn items_body(items: Seq<Seq<char>>) -> Seq<char>
    decreases items.len(),
{
    if items.len() == 0 {
        Seq::empty()
    } else if items.len() == 1 {
        items[0]
    } else {
        items_body(items.drop_last()) + seq![','] + items.last()
    }
}

/// The JSON array with the items `items`, in that order.
pub open spec fn array_text(items: Seq<Seq<char>>) -> Seq<char> {
    seq!['['] + items_body(items) + seq![']']
}

/// Writes the JSON object whose members are the given keys and value texts.
pub fn render_object(m: &Vec<(String, String)>) -> (r: String)
    ensures
        r@ == object_text(pairs_view(m@)),
{
    let ghost pv = pairs_view(m@);
    let mut r = String::new();
    push_all(&mut r, "{");
    let mut i: usize = 0;
    proof {
        reveal_strlit("{");
        assert(pv.subrange(0, 0) == Seq::<(Seq<char>, Seq<char>)>::empty());
    }
    while i < m.len()
        invariant
            pv == pairs_view(m@),
            i <= m@.len(),
            r@ == seq!['{'] + members_body(pv.subrange(0, i as int)),
        decreases m@.len() - i,
    {
        let ghost before = r@;
        if i > 0 {
            push_all(&mut r, ",");
        }
        let q = quote(m[i].0.as_str());
        push_all(&mut r, q.as_str());
        push_all(&mut r, ":");
        push_all(&mut r, m[i].1.as_str());
        proof {
            reveal_strlit(",");
            reveal_strlit(":");
            let sub = pv.subrange(0, i + 1);
            assert(sub.drop_last() == pv.subrange(0, i as int));
            assert(sub.last() == pv[i as int]);
            assert(pv[i as int] == (m@[i as int].0@, m@[i as int].1@));
            if i > 0 {
                assert(r@ == before + seq![','] + member_text(pv[i as int]));
            } else {
                assert(r@ == before + member_text(pv[i as int]));
            }
        }
        i += 1;
    }
    push_all(&mut r, "}");
    proof {
        reveal_strlit("}");
        assert(pv.subrange(0, m@.len() as int) == pv);
    }
    r
}

/// Writes the JSON array whose items are the given texts.
pub fn render_array(items: &Vec<String>) -> (r: String)
    ensures
        r@ == array_text(crate::text::strings_view(items@)),
{
    let ghost iv = crate::text::strings_view(items@);
    let mut r = String::new();
    push_all(&mut r, "[");
    let mut i: usize = 0;
    proof {
        reveal_strlit("[");
        assert(iv.subrange(0, 0) == Seq::<Seq<char>>::empty());
    }
    while i < items.len()
        invariant
            iv == crate::text::strings_view(items@),
            i <= items@.len(),
            r@ == seq!['['] + items_body(iv.subrange(0, i as int)),
        decreases items@.len() - i,
    {
        let ghost before = r@;
        if i > 0 {
            push_all(&mut r, ",");
        }
        push_all(&mut r, items[i].as_str());
        proof {
            reveal_strlit(",");
            let sub = iv.subrange(0, i + 1);
            assert(sub.drop_last() == iv.subrange(0, i as int));
            assert(sub.last() == iv[i as int]);
            if i > 0 {
                assert(r@ == before + seq![','] + iv[i as int]);
            } else {
                assert(r@ == before + iv[i as int]);
            }
        }
        i += 1;
    }
    push_all(&mut r, "]");
    proof {
        reveal_strlit("]");
        assert(iv.subrange(0, items@.len() as int) == iv);
    }
    r
}

/// The value of the first member named `k`.
pub open spec fn lookup(m: Seq<(Seq<char>, Seq<char>)>, k: Seq<char>) -> Option<Seq<char>>
    decreases m.len(),
{
    if m.len() == 0 {
        None
    } else if m[0].0 == k {
        Some(m[0].1)
    } else {
        lookup(m.drop_first(), k)
    }
}

/// The position of the first member named `key`.
pub fn find_member(m: &Vec<(String, String)>, key: &str) -> (r: Option<usize>)
    ensures
        match r {
            Some(i) => i < m@.len() && m@[i as int].0@ == key@ && lookup(pairs_view(m@), key@)
                == Some(m@[i as int].1@),
            None => lookup(pairs_view(m@), key@) is None,
        },
{
    let ghost pv = pairs_view(m@);
    let mut i: usize = 0;
    assert(pv.subrange(0, pv.len() as int) == pv);
    while i < m.len()
        invariant
            pv == pairs_view(m@),
            i <= m@.len(),
            lookup(pv, key@) == lookup(pv.subrange(i as int, pv.len() as int), key@),
        decreases m@.len() - i,
    {
        assert(pv[i as int] == (m@[i as int].0@, m@[i as int].1@));
        assert(pv.subrange(i as int, pv.len() as int)[0] == pv[i as int]);
        if crate::text::same_text(m[i].0.as_str(), key) {
            return Some(i);
        }
        assert(pv.subrange(i as int, pv.len() as int).drop_first() == pv.subrange(
            i + 1,
            pv.len() as int,
        ));
        i += 1;
    }
    None
}

} // verus!
