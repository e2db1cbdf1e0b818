//! The servers this application manages: their descriptors, the registry that
//! maps names to descriptors, and the JSON form of the private store.
use crate::json::{
    array_items, array_text, find_member, json_array_items, json_object_members, json_quoted,
    json_string_value, keys_unique, lookup, object_members, object_text, pairs_view, quote,
    render_array, render_object, string_value,
};
use crate::text::{
    lemma_text_lt_asymmetric, lemma_text_lt_irreflexive, lemma_text_lt_total,
    lemma_text_lt_transitive, same_text, strings_view, text_less, text_lt,
};
use vstd::prelude::*;

verus! {

/// How a server is reached: a local process spoken to over standard input and
/// output, or a remote HTTP endpoint.
pub enum Transport {
    Stdio { command: String, args: Vec<String>, env: Vec<(String, String)> },
    Remote { url: String },
}

/// One managed server.
pub struct ServerDescriptor {
    pub transport: Transport,
    pub enabled: bool,
}

pub enum TransportModel {
    Stdio { command: Seq<char>, args: Seq<Seq<char>>, env: Seq<(Seq<char>, Seq<char>)> },
    Remote { url: Seq<char> },
}

pub struct DescriptorModel {
    pub transport: TransportModel,
    pub enabled: bool,
}

impl View for Transport {
    type V = TransportModel;

    open spec fn view(&self) -> TransportModel {
        match self {
            Transport::Stdio { command, args, env } => TransportModel::Stdio {
                command: command@,
                args: strings_view(args@),
                env: pairs_view(env@),
            },
            Transport::Remote { url } => TransportModel::Remote { url: url@ },
        }
    }
}

impl View for ServerDescriptor {
    type V = DescriptorModel;

    open spec fn view(&self) -> DescriptorModel {
        DescriptorModel { transport: self.transport@, enabled: self.enabled }
    }
}

/// Copies a list of strings.
pub fn copy_strings(v: &Vec<String>) -> (r: Vec<String>)
    ensures
        strings_view(r@) == strings_view(v@),
{
    let mut r: Vec<String> = Vec::new();
    let mut i: usize = 0;
    while i < v.len()
        invariant
            i <= v@.len(),
            strings_view(r@) == strings_view(v@).subrange(0, i as int),
        decreases v@.len() - i,
    {
        let ghost old_r = r@;
        r.push(v[i].clone());
        assert(strings_view(r@) =~= strings_view(old_r).push(v@[i as int]@));
        assert(strings_view(r@) =~= strings_view(v@).subrange(0, i + 1));
        i += 1;
    }
    assert(strings_view(v@).subrange(0, v@.len() as int) == strings_view(v@));
    r
}

/// Copies a list of key/value strings.
pub fn copy_pairs(v: &Vec<(String, String)>) -> (r: Vec<(String, String)>)
    ensures
        pairs_view(r@) == pairs_view(v@),
{
    let mut r: Vec<(String, String)> = Vec::new();
    let mut i: usize = 0;
    while i < v.len()
        invariant
            i <= v@.len(),
            pairs_view(r@) == pairs_view(v@).subrange(0, i as int),
        decreases v@.len() - i,
    {
        let ghost old_r = r@;
        r.push((v[i].0.clone(), v[i].1.clone()));
        assert(pairs_view(r@) =~= pairs_view(old_r).push((v@[i as int].0@, v@[i as int].1@)));
        assert(pairs_view(r@) =~= pairs_view(v@).subrange(0, i + 1));
        i += 1;
    }
    assert(pairs_view(v@).subrange(0, v@.len() as int) == pairs_view(v@));
    r
}

impl Transport {
    pub fn copy(&self) -> (r: Transport)
        ensures
            r@ == self@,
    {
        match self {
            Transport::Stdio { command, args, env } => Transport::Stdio {
                command: command.clone(),
                args: copy_strings(args),
                env: copy_pairs(env),
            },
            Transport::Remote { url } => Transport::Remote { url: url.clone() },
        }
    }
}

/// The transport that the flat stored fields stand for: a non-empty command
/// means a local process, else a non-empty url means a remote endpoint, and
/// with neither the entry is a local process whose command is still to be set.
pub open spec fn transport_of(
    command: Seq<char>,
    args: Seq<Seq<char>>,
    env: Seq<(Seq<char>, Seq<char>)>,
    url: Seq<char>,
) -> TransportModel {
    if command.len() == 0 && url.len() > 0 {
        TransportModel::Remote { url }
    } else {
        TransportModel::Stdio { command, args, env }
    }
}

impl ServerDescriptor {
    pub fn copy(&self) -> (r: ServerDescriptor)
        ensures
            r@ == self@,
    {
        ServerDescriptor { transport: self.transport.copy(), enabled: self.enabled }
    }

    /// A descriptor from the flat fields of the stored form.
    pub fn from_fields(
        command: String,
        args: Vec<String>,
        env: Vec<(String, String)>,
        url: String,
        enabled: bool,
    ) -> (r: ServerDescriptor)
        ensures
            r@ == (DescriptorModel {
                transport: transport_of(command@, strings_view(args@), pairs_view(env@), url@),
                enabled,
            }),
    {
        let cmd_empty = command.as_str().unicode_len() == 0;
        let url_empty = url.as_str().unicode_len() == 0;
        if cmd_empty && !url_empty {
            ServerDescriptor { transport: Transport::Remote { url }, enabled }
        } else {
            ServerDescriptor { transport: Transport::Stdio { command, args, env }, enabled }
        }
    }
}

// ---------------------------------------------------------------------------
// Stored form
/// The stored members of a descriptor: `command`, `args`, `env`, `url`, and
/// `enabled` where asked for. The transport that is not in use is written
/// with empty values.
pub open spec fn descriptor_members(d: DescriptorModel, with_enabled: bool) -> Seq<
    (Seq<char>, Seq<char>),
> {
    let (command, args, env, url) = match d.transport {
        TransportModel::Stdio { command, args, env } => (command, args, env, Seq::empty()),
        TransportModel::Remote { url } => (Seq::empty(), Seq::empty(), Seq::empty(), url),
    };
    let base = seq![
        ("command"@, json_quoted(command)),
        ("args"@, array_text(args.map_values(|a: Seq<char>| json_quoted(a)))),
        ("env"@, object_text(env.map_values(|p: (Seq<char>, Seq<char>)| (p.0, json_quoted(p.1))))),
        ("url"@, json_quoted(url)),
    ];
    if with_enabled {
        base.push(("enabled"@, if d.enabled { "true"@ } else { "false"@ }))
    } else {
        base
    }
}

/// The JSON text of a descriptor.
pub open spec fn descriptor_text(d: DescriptorModel, with_enabled: bool) -> Seq<char> {
    object_text(descriptor_members(d, with_enabled))
}

fn quote_all(v: &Vec<String>) -> (r: Vec<String>)
    ensures
        strings_view(r@) == strings_view(v@).map_values(|a: Seq<char>| json_quoted(a)),
{
    let mut r: Vec<String> = Vec::new();
    let mut i: usize = 0;
    while i < v.len()
        invariant
            i <= v@.len(),
            strings_view(r@) == strings_view(v@).subrange(0, i as int).map_values(
                |a: Seq<char>| json_quoted(a),
            ),
        decreases v@.len() - i,
    {
        let ghost old_r = r@;
        let q = quote(v[i].as_str());
        r.push(q);
        assert(strings_view(r@) =~= strings_view(old_r).push(q@));
        assert(strings_view(r@) =~= strings_view(v@).subrange(0, i + 1).map_values(
            |a: Seq<char>| json_quoted(a),
        ));
        i += 1;
    }
    assert(strings_view(v@).subrange(0, v@.len() as int) == strings_view(v@));
    r
}

fn quote_values(v: &Vec<(String, String)>) -> (r: Vec<(String, String)>)
    ensures
        pairs_view(r@) == pairs_view(v@).map_values(
            |p: (Seq<char>, Seq<char>)| (p.0, json_quoted(p.1)),
        ),
{
    let mut r: Vec<(String, String)> = Vec::new();
    let mut i: usize = 0;
    while i < v.len()
        invariant
            i <= v@.len(),
            pairs_view(r@) == pairs_view(v@).subrange(0, i as int).map_values(
                |p: (Seq<char>, Seq<char>)| (p.0, json_quoted(p.1)),
            ),
        decreases v@.len() - i,
    {
        let ghost old_r = r@;
        let q = quote(v[i].1.as_str());
        r.push((v[i].0.clone(), q));
        assert(pairs_view(r@) =~= pairs_view(old_r).push((v@[i as int].0@, q@)));
        assert(pairs_view(r@) =~= pairs_view(v@).subrange(0, i + 1).map_values(
            |p: (Seq<char>, Seq<char>)| (p.0, json_quoted(p.1)),
        ));
        i += 1;
    }
    assert(pairs_view(v@).subrange(0, v@.len() as int) == pairs_view(v@));
    r
}

/// Writes a descriptor as a JSON object, with or without its `enabled` flag.
pub fn descriptor_json(d: &ServerDescriptor, with_enabled: bool) -> (r: String)
    ensures
        r@ == descriptor_text(d@, with_enabled),
{
    let empty_strings: Vec<String> = Vec::new();
    let empty_pairs: Vec<(String, String)> = Vec::new();
    let empty = String::new();
    let (command, args, env, url) = match &d.transport {
        Transport::Stdio { command, args, env } => (command, args, env, &empty),
        Transport::Remote { url } => (&empty, &empty_strings, &empty_pairs, url),
    };
    let mut m: Vec<(String, String)> = Vec::new();
    m.push(("command".to_string(), quote(command.as_str())));
    m.push(("args".to_string(), render_array(&quote_all(args))));
    m.push(("env".to_string(), render_object(&quote_values(env))));
    m.push(("url".to_string(), quote(url.as_str())));
    if with_enabled {
        let flag = if d.enabled {
            "true".to_string()
        } else {
            "false".to_string()
        };
        m.push(("enabled".to_string(), flag));
    }
    proof {
        assert(strings_view(empty_strings@) == Seq::<Seq<char>>::empty());
        assert(pairs_view(empty_pairs@) == Seq::<(Seq<char>, Seq<char>)>::empty());
        assert(pairs_view(m@) == descriptor_members(d@, with_enabled));
    }
    render_object(&m)
}

/// The string a stored field holds; an absent field holds the empty string.
pub open spec fn string_field(f: Seq<(Seq<char>, Seq<char>)>, key: Seq<char>) -> Option<Seq<char>> {
    match lookup(f, key) {
        None => Some(Seq::empty()),
        Some(raw) => json_string_value(raw),
    }
}

/// The strings that JSON texts hold, where each of them holds one.
pub open spec fn all_strings(items: Seq<Seq<char>>) -> Option<Seq<Seq<char>>> {
    if forall|i: int| 0 <= i < items.len() ==> (#[trigger] json_string_value(items[i])) is Some {
        Some(items.map_values(|t: Seq<char>| json_string_value(t)->0))
    } else {
        None
    }
}

/// The members of an object with each value read as a string, where each
/// value holds one.
pub open spec fn all_string_values(m: Seq<(Seq<char>, Seq<char>)>) -> Option<
    Seq<(Seq<char>, Seq<char>)>,
> {
    if forall|i: int| 0 <= i < m.len() ==> (#[trigger] json_string_value(m[i].1)) is Some {
        Some(m.map_values(|p: (Seq<char>, Seq<char>)| (p.0, json_string_value(p.1)->0)))
    } else {
        None
    }
}

/// A stored list of strings; an absent field holds the empty list.
pub open spec fn strings_field(f: Seq<(Seq<char>, Seq<char>)>, key: Seq<char>) -> Option<
    Seq<Seq<char>>,
> {
    match lookup(f, key) {
        None => Some(Seq::empty()),
        Some(raw) => match json_array_items(raw) {
            None => None,
            Some(items) => all_strings(items),
        },
    }
}

/// A stored mapping of strings to strings; an absent field holds no pairs.
pub open spec fn pairs_field(f: Seq<(Seq<char>, Seq<char>)>, key: Seq<char>) -> Option<
    Seq<(Seq<char>, Seq<char>)>,
> {
    match lookup(f, key) {
        None => Some(Seq::empty()),
        Some(raw) => match json_object_members(raw) {
            None => None,
            Some(m) => all_string_values(m),
        },
    }
}

/// The stored `enabled` flag; an absent flag reads as `false`.
pub open spec fn flag_field(f: Seq<(Seq<char>, Seq<char>)>, key: Seq<char>) -> Option<bool> {
    match lookup(f, key) {
        None => Some(false),
        Some(raw) => if raw == "true"@ {
            Some(true)
        } else if raw == "false"@ {
            Some(false)
        } else {
            None
        },
    }
}

/// The descriptor that the JSON text `raw` stores, if it stores one.
pub open spec fn descriptor_of(raw: Seq<char>) -> Option<DescriptorModel> {
    match json_object_members(raw) {
        None => None,
        Some(f) => {
            let command = string_field(f, "command"@);
            let args = strings_field(f, "args"@);
            let env = pairs_field(f, "env"@);
            let url = string_field(f, "url"@);
            let enabled = flag_field(f, "enabled"@);
            if command is Some && args is Some && env is Some && url is Some && enabled is Some {
                Some(
                    DescriptorModel {
                        transport: transport_of(command->0, args->0, env->0, url->0),
                        enabled: enabled->0,
                    },
                )
            } else {
                None
            }
        },
    }
}

fn read_string_field(f: &Vec<(String, String)>, key: &str) -> (r: Option<String>)
    ensures
        match r {
            Some(s) => string_field(pairs_view(f@), key@) == Some(s@),
            None => string_field(pairs_view(f@), key@) is None,
        },
{
    match find_member(f, key) {
        None => Some(String::new()),
        Some(i) => string_value(f[i].1.as_str()),
    }
}

fn read_strings(items: &Vec<String>) -> (r: Option<Vec<String>>)
    ensures
        match r {
            Some(v) => all_strings(strings_view(items@)) == Some(strings_view(v@)),
            None => all_strings(strings_view(items@)) is None,
        },
{
    let ghost iv = strings_view(items@);
    let mut out: Vec<String> = Vec::new();
    let mut i: usize = 0;
    while i < items.len()
        invariant
            iv == strings_view(items@),
            i <= items@.len(),
            forall|j: int| 0 <= j < i ==> (#[trigger] json_string_value(iv[j])) is Some,
            strings_view(out@) == iv.subrange(0, i as int).map_values(
                |t: Seq<char>| json_string_value(t)->0,
            ),
        decreases items@.len() - i,
    {
        match string_value(items[i].as_str()) {
            None => {
                assert(json_string_value(iv[i as int]) is None);
                return None;
            },
            Some(s) => {
                let ghost old_out = out@;
                let ghost sv = s@;
                out.push(s);
                assert(strings_view(out@) =~= strings_view(old_out).push(sv));
                assert(strings_view(out@) =~= iv.subrange(0, i + 1).map_values(
                    |t: Seq<char>| json_string_value(t)->0,
                ));
            },
        }
        i += 1;
    }
    assert(iv.subrange(0, iv.len() as int) == iv);
    Some(out)
}

fn read_string_values(m: &Vec<(String, String)>) -> (r: Option<Vec<(String, String)>>)
    ensures
        match r {
            Some(v) => all_string_values(pairs_view(m@)) == Some(pairs_view(v@)),
            None => all_string_values(pairs_view(m@)) is None,
        },
{
    let ghost mv = pairs_view(m@);
    let mut out: Vec<(String, String)> = Vec::new();
    let mut i: usize = 0;
    while i < m.len()
        invariant
            mv == pairs_view(m@),
            i <= m@.len(),
            forall|j: int| 0 <= j < i ==> (#[trigger] json_string_value(mv[j].1)) is Some,
            pairs_view(out@) == mv.subrange(0, i as int).map_values(
                |p: (Seq<char>, Seq<char>)| (p.0, json_string_value(p.1)->0),
            ),
        decreases m@.len() - i,
    {
        match string_value(m[i].1.as_str()) {
            None => {
                assert(json_string_value(mv[i as int].1) is None);
                return None;
            },
            Some(s) => {
                let ghost old_out = out@;
                let ghost sv = s@;
                out.push((m[i].0.clone(), s));
                assert(pairs_view(out@) =~= pairs_view(old_out).push((m@[i as int].0@, sv)));
                assert(pairs_view(out@) =~= mv.subrange(0, i + 1).map_values(
                    |p: (Seq<char>, Seq<char>)| (p.0, json_string_value(p.1)->0),
                ));
            },
        }
        i += 1;
    }
    assert(mv.subrange(0, mv.len() as int) == mv);
    Some(out)
}

fn read_strings_field(f: &Vec<(String, String)>, key: &str) -> (r: Option<Vec<String>>)
    ensures
        match r {
            Some(v) => strings_field(pairs_view(f@), key@) == Some(strings_view(v@)),
            None => strings_field(pairs_view(f@), key@) is None,
        },
{
    match find_member(f, key) {
        None => {
            let v: Vec<String> = Vec::new();
            assert(strings_view(v@) == Seq::<Seq<char>>::empty());
            Some(v)
        },
        Some(i) => match array_items(f[i].1.as_str()) {
            None => None,
            Some(items) => read_strings(&items),
        },
    }
}

fn read_pairs_field(f: &Vec<(String, String)>, key: &str) -> (r: Option<Vec<(String, String)>>)
    ensures
        match r {
            Some(v) => pairs_field(pairs_view(f@), key@) == Some(pairs_view(v@)),
            None => pairs_field(pairs_view(f@), key@) is None,
        },
{
    match find_member(f, key) {
        None => {
            let v: Vec<(String, String)> = Vec::new();
            assert(pairs_view(v@) == Seq::<(Seq<char>, Seq<char>)>::empty());
            Some(v)
        },
        Some(i) => match object_members(f[i].1.as_str()) {
            Err(_) => None,
            Ok(m) => read_string_values(&m),
        },
    }
}

fn read_flag_field(f: &Vec<(String, String)>, key: &str) -> (r: Option<bool>)
    ensures
        r == flag_field(pairs_view(f@), key@),
{
    match find_member(f, key) {
        None => Some(false),
        Some(i) => {
            if same_text(f[i].1.as_str(), "true") {
                Some(true)
            } else if same_text(f[i].1.as_str(), "false") {
                Some(false)
            } else {
                None
            }
        },
    }
}

/// Reads a descriptor from its stored JSON text.
pub fn parse_descriptor(raw: &str) -> (r: Option<ServerDescriptor>)
    ensures
        match r {
            Some(d) => descriptor_of(raw@) == Some(d@),
            None => descriptor_of(raw@) is None,
        },
{
    let f = match object_members(raw) {
        Err(_) => return None,
        Ok(f) => f,
    };
    let command = match read_string_field(&f, "command") {
        None => return None,
        Some(c) => c,
    };
    let args = match read_strings_field(&f, "args") {
        None => return None,
        Some(a) => a,
    };
    let env = match read_pairs_field(&f, "env") {
        None => return None,
        Some(e) => e,
    };
    let url = match read_string_field(&f, "url") {
        None => return None,
        Some(u) => u,
    };
    let enabled = match read_flag_field(&f, "enabled") {
        None => return None,
        Some(b) => b,
    };
    Some(ServerDescriptor::from_fields(command, args, env, url, enabled))
}

} // verus!

verus! {

// ---------------------------------------------------------------------------
// Keyed lists
/// Some entry of `s` is named `k`.
pub open spec fn has_key<V>(s: Seq<(Seq<char>, V)>, k: Seq<char>) -> bool {
    exists|i: int| 0 <= i < s.len() && (#[trigger] s[i]).0 == k
}

/// The position of the entry named `k`.
pub open spec fn key_pos<V>(s: Seq<(Seq<char>, V)>, k: Seq<char>) -> int {
    choose|i: int| 0 <= i < s.len() && (#[trigger] s[i]).0 == k
}

/// The value of the entry named `k`.
pub open spec fn value_of<V>(s: Seq<(Seq<char>, V)>, k: Seq<char>) -> V {
    s[key_pos(s, k)].1
}

/// `s` with the entry named `k` holding `v`: replaced where it stands, or
/// added at the end.
pub open spec fn upsert_spec<V>(s: Seq<(Seq<char>, V)>, k: Seq<char>, v: V) -> Seq<(Seq<char>, V)> {
    if has_key(s, k) {
        s.update(key_pos(s, k), (k, v))
    } else {
        s.push((k, v))
    }
}

/// `s` without the entry named `k`, the others kept in order.
pub open spec fn remove_spec<V>(s: Seq<(Seq<char>, V)>, k: Seq<char>) -> Seq<(Seq<char>, V)> {
    if has_key(s, k) {
        s.remove(key_pos(s, k))
    } else {
        s
    }
}

/// With unique keys, the entry named `k` stands at the one position that holds it.
pub proof fn lemma_key_pos<V>(s: Seq<(Seq<char>, V)>, k: Seq<char>, i: int)
    requires
        keys_unique(s),
        0 <= i < s.len(),
        s[i].0 == k,
    ensures
        has_key(s, k),
        key_pos(s, k) == i,
        value_of(s, k) == s[i].1,
{
    assert(has_key(s, k));
    let j = key_pos(s, k);
    assert(0 <= j < s.len() && s[j].0 == k);
    if j != i {
        if j < i {
            assert(s[j].0 != s[i].0);
        } else {
            assert(s[i].0 != s[j].0);
        }
    }
}

/// The names stand in character order.
pub open spec fn keys_sorted<V>(s: Seq<(Seq<char>, V)>) -> bool {
    forall|i: int, j: int| 0 <= i < j < s.len() ==> text_lt(s[i].0, s[j].0)
}

/// The first position from `i` on whose name does not come before `k`.
pub open spec fn place_from<V>(s: Seq<(Seq<char>, V)>, k: Seq<char>, i: int) -> int
    decreases s.len() - i,
{
    if i < 0 || i >= s.len() {
        s.len() as int
    } else if text_lt(s[i].0, k) {
        place_from(s, k, i + 1)
    } else {
        i
    }
}

/// Where an entry named `k` goes so that the names stay in order.
pub open spec fn place_of<V>(s: Seq<(Seq<char>, V)>, k: Seq<char>) -> int {
    place_from(s, k, 0)
}

/// `s` with the entry named `k` holding `v`: replaced where it stands, or
/// inserted where its name belongs in character order.
pub open spec fn put_spec<V>(s: Seq<(Seq<char>, V)>, k: Seq<char>, v: V) -> Seq<(Seq<char>, V)> {
    if has_key(s, k) {
        s.update(key_pos(s, k), (k, v))
    } else {
        s.insert(place_of(s, k), (k, v))
    }
}

proof fn lemma_place_from<V>(s: Seq<(Seq<char>, V)>, k: Seq<char>, i: int)
    requires
        0 <= i <= s.len(),
        forall|j: int| 0 <= j < i ==> text_lt(#[trigger] s[j].0, k),
    ensures
        i <= place_from(s, k, i) <= s.len(),
        forall|j: int| 0 <= j < place_from(s, k, i) ==> text_lt(#[trigger] s[j].0, k),
        place_from(s, k, i) < s.len() ==> !text_lt(s[place_from(s, k, i)].0, k),
    decreases s.len() - i,
{
    if i < s.len() && text_lt(s[i].0, k) {
        lemma_place_from(s, k, i + 1);
    }
}

/// Names in order are unique.
pub proof fn lemma_sorted_unique<V>(s: Seq<(Seq<char>, V)>)
    requires
        keys_sorted(s),
    ensures
        keys_unique(s),
{
    assert forall|i: int, j: int| 0 <= i < j < s.len() implies s[i].0 != s[j].0 by {
        lemma_text_lt_irreflexive(s[i].0);
    }
}

/// Putting an entry keeps the names unique and in order, and leaves the other
/// names and their values as they were.
pub proof fn lemma_put<V>(s: Seq<(Seq<char>, V)>, k: Seq<char>, v: V)
    requires
        keys_sorted(s),
    ensures
        keys_sorted(put_spec(s, k, v)),
        keys_unique(put_spec(s, k, v)),
        has_key(put_spec(s, k, v), k),
        value_of(put_spec(s, k, v), k) == v,
        forall|k2: Seq<char>| k2 != k ==> (has_key(put_spec(s, k, v), k2) <==> has_key(s, k2)),
        forall|k2: Seq<char>|
            k2 != k && has_key(s, k2) ==> value_of(put_spec(s, k, v), k2) == value_of(s, k2),
{
    lemma_sorted_unique(s);
    let t = put_spec(s, k, v);
    if has_key(s, k) {
        let p = key_pos(s, k);
        assert(0 <= p < s.len() && s[p].0 == k);
        assert(keys_sorted(t));
        lemma_sorted_unique(t);
        lemma_key_pos(t, k, p);
        assert forall|k2: Seq<char>| k2 != k implies (has_key(t, k2) <==> has_key(s, k2)) by {
            if has_key(t, k2) {
                let q = key_pos(t, k2);
                assert(s[q].0 == k2);
            }
            if has_key(s, k2) {
                let q = key_pos(s, k2);
                assert(t[q].0 == k2);
            }
        }
        assert forall|k2: Seq<char>| k2 != k && has_key(s, k2) implies value_of(t, k2) == value_of(
            s,
            k2,
        ) by {
            let q = key_pos(s, k2);
            lemma_key_pos(s, k2, q);
            assert(t[q] == s[q]);
            lemma_key_pos(t, k2, q);
        }
    } else {
        let p = place_of(s, k);
        lemma_place_from(s, k, 0);
        assert forall|j: int| p <= j < s.len() implies text_lt(k, #[trigger] s[j].0) by {
            if j > p {
                lemma_text_lt_transitive(s[p].0, s[j].0, k);
            }
            assert(s[j].0 != k);
            lemma_text_lt_total(k, s[j].0);
        }
        assert forall|i: int, j: int| 0 <= i < j < t.len() implies text_lt(t[i].0, t[j].0) by {
            if j < p {
                assert(t[i] == s[i] && t[j] == s[j]);
            } else if j == p {
                assert(t[i] == s[i]);
            } else if i < p {
                assert(t[i] == s[i] && t[j] == s[j - 1]);
                lemma_text_lt_transitive(s[i].0, k, s[j - 1].0);
            } else if i == p {
                assert(t[j] == s[j - 1]);
            } else {
                assert(t[i] == s[i - 1] && t[j] == s[j - 1]);
            }
        }
        lemma_sorted_unique(t);
        assert(t[p] == (k, v));
        lemma_key_pos(t, k, p);
        assert forall|k2: Seq<char>| k2 != k implies (has_key(t, k2) <==> has_key(s, k2)) by {
            if has_key(t, k2) {
                let q = key_pos(t, k2);
                if q < p {
                    assert(s[q].0 == k2);
                } else {
                    assert(s[q - 1].0 == k2);
                }
            }
            if has_key(s, k2) {
                let q = key_pos(s, k2);
                if q < p {
                    assert(t[q].0 == k2);
                } else {
                    assert(t[q + 1].0 == k2);
                }
            }
        }
        assert forall|k2: Seq<char>| k2 != k && has_key(s, k2) implies value_of(t, k2) == value_of(
            s,
            k2,
        ) by {
            let q = key_pos(s, k2);
            lemma_key_pos(s, k2, q);
            if q < p {
                assert(t[q] == s[q]);
                lemma_key_pos(t, k2, q);
            } else {
                assert(t[q + 1] == s[q]);
                lemma_key_pos(t, k2, q + 1);
            }
        }
    }
}

/// Two lists with names in order that hold the same names with the same
/// values are the same list.
pub proof fn lemma_same_content_equal<V>(a: Seq<(Seq<char>, V)>, b: Seq<(Seq<char>, V)>)
    requires
        keys_sorted(a),
        keys_sorted(b),
        forall|k: Seq<char>| has_key(a, k) <==> has_key(b, k),
        forall|k: Seq<char>| has_key(a, k) ==> value_of(a, k) == value_of(b, k),
    ensures
        a == b,
    decreases a.len(),
{
    lemma_sorted_unique(a);
    lemma_sorted_unique(b);
    if a.len() == 0 {
        if b.len() > 0 {
            assert(has_key(b, b[0].0));
        }
        assert(a =~= b);
    } else {
        assert(has_key(a, a[0].0));
        assert(b.len() > 0);
        let x = a[0].0;
        let y = b[0].0;
        assert(has_key(b, y));
        let j = key_pos(b, x);
        let i = key_pos(a, y);
        if x != y {
            assert(j > 0 && text_lt(y, x));
            assert(i > 0 && text_lt(x, y));
            lemma_text_lt_asymmetric(x, y);
        }
        lemma_key_pos(a, x, 0);
        lemma_key_pos(b, x, 0);
        let a2 = a.drop_first();
        let b2 = b.drop_first();
        assert forall|k: Seq<char>| has_key(a2, k) <==> has_key(b2, k) by {
            lemma_drop_first_key(a, k);
            lemma_drop_first_key(b, k);
        }
        assert forall|k: Seq<char>| has_key(a2, k) implies value_of(a2, k) == value_of(b2, k) by {
            lemma_drop_first_key(a, k);
            lemma_drop_first_key(b, k);
        }
        lemma_same_content_equal(a2, b2);
        assert(a =~= b) by {
            assert forall|n: int| 0 <= n < a.len() implies a[n] == b[n] by {
                if n > 0 {
                    assert(a[n] == a2[n - 1] && b[n] == b2[n - 1]);
                }
            }
        }
    }
}

proof fn lemma_drop_first_key<V>(s: Seq<(Seq<char>, V)>, k: Seq<char>)
    requires
        keys_unique(s),
        s.len() > 0,
    ensures
        has_key(s.drop_first(), k) <==> (has_key(s, k) && k != s[0].0),
        has_key(s.drop_first(), k) ==> value_of(s.drop_first(), k) == value_of(s, k),
{
    let t = s.drop_first();
    assert(keys_unique(t)) by {
        assert forall|i: int, j: int| 0 <= i < j < t.len() implies t[i].0 != t[j].0 by {
            assert(s[i + 1].0 != s[j + 1].0);
        }
    }
    if has_key(t, k) {
        let q = key_pos(t, k);
        assert(s[q + 1].0 == k);
        assert(s[0].0 != s[q + 1].0);
        lemma_key_pos(s, k, q + 1);
        lemma_key_pos(t, k, q);
    }
    if has_key(s, k) && k != s[0].0 {
        let q = key_pos(s, k);
        assert(q > 0);
        assert(t[q - 1].0 == k);
    }
}

/// The position of the entry named `k` in a list of named values.
fn position<V>(v: &Vec<(String, V)>, k: &str) -> (r: Option<usize>)
    ensures
        match r {
            Some(i) => i < v@.len() && v@[i as int].0@ == k@,
            None => forall|j: int| 0 <= j < v@.len() ==> v@[j].0@ != k@,
        },
{
    let mut i: usize = 0;
    while i < v.len()
        invariant
            i <= v@.len(),
            forall|j: int| 0 <= j < i ==> v@[j].0@ != k@,
        decreases v@.len() - i,
    {
        if same_text(v[i].0.as_str(), k) {
            return Some(i);
        }
        i += 1;
    }
    None
}

// ---------------------------------------------------------------------------
// Registry
/// The mapping from server name to descriptor that this application owns.
pub struct Registry {
    entries: Vec<(String, ServerDescriptor)>,
}

pub open spec fn entries_view(v: Seq<(String, ServerDescriptor)>) -> Seq<(Seq<char>, DescriptorModel)> {
    v.map_values(|p: (String, ServerDescriptor)| (p.0@, p.1@))
}

/// Why the private store could not be read.
pub enum StoreError {
    /// The text is no JSON object; serde_json's message.
    Malformed { message: String },
    /// The entry of this name stores no descriptor.
    BadEntry { name: String },
}

/// Every member of a stored object holds a descriptor.
pub open spec fn all_decode(m: Seq<(Seq<char>, Seq<char>)>) -> bool {
    forall|i: int| 0 <= i < m.len() ==> (#[trigger] descriptor_of(m[i].1)) is Some
}

/// The registry holds exactly the names of the stored members, each with the
/// descriptor its member stores.
pub open spec fn holds_members(r: Seq<(Seq<char>, DescriptorModel)>, m: Seq<(Seq<char>, Seq<char>)>) -> bool {
    &&& forall|k: Seq<char>| has_key(r, k) <==> has_key(m, k)
    &&& forall|i: int| 0 <= i < m.len() ==> value_of(r, (#[trigger] m[i]).0) == descriptor_of(m[i].1)->0
}

/// The members of the stored form of a registry.
pub open spec fn registry_members(s: Seq<(Seq<char>, DescriptorModel)>) -> Seq<(Seq<char>, Seq<char>)> {
    s.map_values(|p: (Seq<char>, DescriptorModel)| (p.0, descriptor_text(p.1, true)))
}

impl View for Registry {
    type V = Seq<(Seq<char>, DescriptorModel)>;

    closed spec fn view(&self) -> Seq<(Seq<char>, DescriptorModel)> {
        entries_view(self.entries@)
    }
}

pub proof fn lemma_place_bound<V>(s: Seq<(Seq<char>, V)>, k: Seq<char>, i: int)
    requires
        0 <= i <= s.len(),
    ensures
        i <= place_from(s, k, i) <= s.len(),
    decreases s.len() - i,
{
    if i < s.len() && text_lt(s[i].0, k) {
        lemma_place_bound(s, k, i + 1);
    }
}

impl Registry {
    /// Each name occurs once, and the names stand in character order, so
    /// that a registry is the same whatever order its servers were added in.
    pub open spec fn wf(&self) -> bool {
        keys_unique(self@) && keys_sorted(self@)
    }

    pub fn new() -> (r: Registry)
        ensures
            r@ == Seq::<(Seq<char>, DescriptorModel)>::empty(),
            r.wf(),
    {
        let r = Registry { entries: Vec::new() };
        assert(r@ =~= Seq::<(Seq<char>, DescriptorModel)>::empty());
        r
    }

    pub fn len(&self) -> (r: usize)
        ensures
            r == self@.len(),
    {
        self.entries.len()
    }

    /// The name of the entry at position `i`.
    pub fn name_at(&self, i: usize) -> (r: &String)
        requires
            i < self@.len(),
        ensures
            r@ == self@[i as int].0,
    {
        &self.entries[i].0
    }

    /// The descriptor of the entry at position `i`.
    pub fn descriptor_at(&self, i: usize) -> (r: &ServerDescriptor)
        requires
            i < self@.len(),
        ensures
            r@ == self@[i as int].1,
    {
        &self.entries[i].1
    }

    /// The descriptor stored under `name`.
    pub fn get(&self, name: &str) -> (r: Option<&ServerDescriptor>)
        requires
            self.wf(),
        ensures
            r is Some <==> has_key(self@, name@),
            r matches Some(d) ==> d@ == value_of(self@, name@),
    {
        match position(&self.entries, name) {
            Some(i) => {
                proof {
                    lemma_key_pos(self@, name@, i as int);
                }
                Some(&self.entries[i].1)
            },
            None => {
                assert(!has_key(self@, name@)) by {
                    if has_key(self@, name@) {
                        let j = key_pos(self@, name@);
                        assert(self.entries@[j].0@ == name@);
                    }
                }
                None
            },
        }
    }

    /// Where an entry named `k` goes so that the names stay in order.
    fn place(&self, k: &str) -> (r: usize)
        ensures
            r == place_of(self@, k@),
            r <= self@.len(),
    {
        let ghost sv = self@;
        let mut i: usize = 0;
        proof {
            lemma_place_bound(sv, k@, 0);
        }
        while i < self.entries.len() && text_less(self.entries[i].0.as_str(), k)
            invariant
                sv == self@,
                sv == entries_view(self.entries@),
                i <= sv.len(),
                place_of(sv, k@) == place_from(sv, k@, i as int),
                i <= place_from(sv, k@, i as int) <= sv.len(),
            decreases sv.len() - i,
        {
            assert(sv[i as int].0 == self.entries@[i as int].0@);
            i += 1;
            proof {
                lemma_place_bound(sv, k@, i as int);
            }
        }
        i
    }

    /// Stores `d` under `name`: in place of what was stored there, or as a
    /// new entry where its name belongs in character order.
    pub fn upsert(&mut self, name: String, d: ServerDescriptor)
        requires
            old(self).wf(),
        ensures
            final(self).wf(),
            final(self)@ == put_spec(old(self)@, name@, d@),
    {
        let ghost s = self@;
        let ghost nv = name@;
        let ghost dv = d@;
        match position(&self.entries, name.as_str()) {
            Some(i) => {
                proof {
                    lemma_key_pos(s, nv, i as int);
                }
                self.entries.set(i, (name, d));
                assert(self@ =~= s.update(i as int, (nv, dv)));
            },
            None => {
                assert(!has_key(s, nv)) by {
                    if has_key(s, nv) {
                        let j = key_pos(s, nv);
                        assert(self.entries@[j].0@ == nv);
                    }
                }
                let p = self.place(name.as_str());
                self.entries.insert(p, (name, d));
                assert(self@ =~= s.insert(p as int, (nv, dv)));
            },
        }
        proof {
            lemma_put(s, nv, dv);
        }
    }

    /// Removes the entry named `name`; says whether there was one.
    pub fn remove(&mut self, name: &str) -> (r: bool)
        requires
            old(self).wf(),
        ensures
            final(self).wf(),
            r == has_key(old(self)@, name@),
            final(self)@ == remove_spec(old(self)@, name@),
    {
        let ghost s = self@;
        match position(&self.entries, name) {
            Some(i) => {
                proof {
                    lemma_key_pos(s, name@, i as int);
                }
                self.entries.remove(i);
                assert(self@ =~= s.remove(i as int));
                assert forall|a: int, b: int| 0 <= a < b < self@.len() implies self@[a].0
                    != self@[b].0 by {
                    if a < i {
                        if b < i {
                            assert(s[a].0 != s[b].0);
                        } else {
                            assert(s[a].0 != s[b + 1].0);
                        }
                    } else {
                        assert(s[a + 1].0 != s[b + 1].0);
                    }
                }
                assert forall|a: int, b: int| 0 <= a < b < self@.len() implies text_lt(
                    self@[a].0,
                    self@[b].0,
                ) by {
                    if a < i {
                        if b >= i {
                            assert(self@[b] == s[b + 1]);
                        }
                    } else {
                        assert(self@[a] == s[a + 1] && self@[b] == s[b + 1]);
                    }
                }
                true
            },
            None => {
                assert(!has_key(s, name@)) by {
                    if has_key(s, name@) {
                        let j = key_pos(s, name@);
                        assert(self.entries@[j].0@ == name@);
                    }
                }
                false
            },
        }
    }

    /// Turns the server named `name` on or off; says whether there was one.
    pub fn set_enabled(&mut self, name: &str, enabled: bool) -> (r: bool)
        requires
            old(self).wf(),
        ensures
            final(self).wf(),
            r == has_key(old(self)@, name@),
            r ==> final(self)@ == put_spec(
                old(self)@,
                name@,
                DescriptorModel { enabled, ..value_of(old(self)@, name@) },
            ),
            !r ==> final(self)@ == old(self)@,
    {
        let ghost s = self@;
        match position(&self.entries, name) {
            Some(i) => {
                proof {
                    lemma_key_pos(s, name@, i as int);
                }
                let d = ServerDescriptor { transport: self.entries[i].1.transport.copy(), enabled };
                let n = self.entries[i].0.clone();
                self.upsert(n, d);
                true
            },
            None => {
                assert(!has_key(s, name@)) by {
                    if has_key(s, name@) {
                        let j = key_pos(s, name@);
                        assert(self.entries@[j].0@ == name@);
                    }
                }
                false
            },
        }
    }

    /// Reads the private store. An absent store (`None`) is an empty
    /// registry; a text that is not a JSON object of descriptors is refused.
    /// The registry holds the stored names with their decoded descriptors.
    pub fn load(existing: Option<&str>) -> (r: Result<Registry, StoreError>)
        ensures
            existing is None ==> (r matches Ok(reg) && reg@ == Seq::<
                (Seq<char>, DescriptorModel),
            >::empty()),
            existing matches Some(t) ==> match r {
                Ok(reg) => json_object_members(t@) matches Some(m) && all_decode(m)
                    && holds_members(reg@, m),
                Err(StoreError::Malformed { .. }) => json_object_members(t@) is None,
                Err(StoreError::BadEntry { name }) => json_object_members(t@) matches Some(m)
                    && !all_decode(m) && exists|i: int|
                    0 <= i < m.len() && m[i].0 == name@ && (#[trigger] descriptor_of(m[i].1))
                    is None,
            },
            r matches Ok(reg) ==> reg.wf(),
    {
        let text = match existing {
            None => return Ok(Registry::new()),
            Some(t) => t,
        };
        let m = match object_members(text) {
            Err(message) => return Err(StoreError::Malformed { message }),
            Ok(m) => m,
        };
        let ghost mv = pairs_view(m@);
        let mut reg = Registry::new();
        let mut i: usize = 0;
        while i < m.len()
            invariant
                mv == pairs_view(m@),
                existing == Some(text),
                json_object_members(text@) == Some(mv),
                keys_unique(mv),
                i <= m@.len(),
                reg.wf(),
                forall|j: int| 0 <= j < i ==> (#[trigger] descriptor_of(mv[j].1)) is Some,
                forall|k: Seq<char>| has_key(reg@, k) <==> exists|j: int| 0 <= j < i && (#[trigger] mv[j]).0 == k,
                forall|j: int| 0 <= j < i ==> value_of(reg@, (#[trigger] mv[j]).0) == descriptor_of(mv[j].1)->0,
            decreases m@.len() - i,
        {
            assert(mv[i as int] == (m@[i as int].0@, m@[i as int].1@));
            match parse_descriptor(m[i].1.as_str()) {
                None => {
                    assert(descriptor_of(mv[i as int].1) is None);
                    return Err(StoreError::BadEntry { name: m[i].0.clone() });
                },
                Some(d) => {
                    let ghost before = reg@;
                    let ghost k = mv[i as int].0;
                    let ghost dv = d@;
                    assert(!has_key(before, k)) by {
                        if has_key(before, k) {
                            let j = choose|j: int| 0 <= j < i && (#[trigger] mv[j]).0 == k;
                            assert(mv[j].0 != mv[i as int].0);
                        }
                    }
                    reg.upsert(m[i].0.clone(), d);
                    proof {
                        lemma_put(before, k, dv);
                        assert forall|k2: Seq<char>| has_key(reg@, k2) <==> exists|j: int|
                            0 <= j < i + 1 && (#[trigger] mv[j]).0 == k2 by {
                            if k2 == k {
                                assert(mv[i as int].0 == k2);
                            } else if has_key(before, k2) {
                                let j = choose|j: int| 0 <= j < i && (#[trigger] mv[j]).0 == k2;
                                assert(0 <= j < i + 1 && mv[j].0 == k2);
                            } else if exists|j: int| 0 <= j < i + 1 && (#[trigger] mv[j]).0 == k2 {
                                let j = choose|j: int| 0 <= j < i + 1 && (#[trigger] mv[j]).0 == k2;
                                assert(j != i);
                                assert(0 <= j < i && mv[j].0 == k2);
                            }
                        }
                        assert forall|j: int| 0 <= j < i + 1 implies value_of(reg@, (#[trigger] mv[j]).0)
                            == descriptor_of(mv[j].1)->0 by {
                            if j < i {
                                assert(mv[j].0 != k);
                                assert(has_key(before, mv[j].0));
                            }
                        }
                    }
                },
            }
            i += 1;
        }
        proof {
            assert forall|k: Seq<char>| has_key(reg@, k) <==> has_key(mv, k) by {
                if has_key(mv, k) {
                    let j = key_pos(mv, k);
                    assert(0 <= j < m@.len() && mv[j].0 == k);
                }
            }
        }
        Ok(reg)
    }

    /// Writes the private store: each descriptor with its `enabled` flag.
    pub fn to_json(&self) -> (r: String)
        ensures
            r@ == object_text(registry_members(self@)),
    {
        let mut m: Vec<(String, String)> = Vec::new();
        let mut i: usize = 0;
        while i < self.entries.len()
            invariant
                i <= self@.len(),
                self@ == entries_view(self.entries@),
                pairs_view(m@) == registry_members(self@.subrange(0, i as int)),
            decreases self@.len() - i,
        {
            let ghost old_m = m@;
            let t = descriptor_json(&self.entries[i].1, true);
            let ghost tv = t@;
            m.push((self.entries[i].0.clone(), t));
            assert(pairs_view(m@) =~= pairs_view(old_m).push((self@[i as int].0, tv)));
            assert(pairs_view(m@) =~= registry_members(self@.subrange(0, i + 1)));
            i += 1;
        }
        assert(self@.subrange(0, self@.len() as int) == self@);
        render_object(&m)
    }
}

} // verus!
