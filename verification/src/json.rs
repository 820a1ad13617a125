use vstd::prelude::*;

verus! {

/// A JSON document, as herdr hands it over.
///
/// A parsed object holds its members sorted by key (the order of
/// `serde_json`'s map); when a key occurs more than once in a value built by
/// hand, lookups see the first member with that key.
#[derive(Debug)]
pub enum Json {
    Null,
    Bool(bool),
    /// A number, in its textual form (the library never reads numbers).
    Number(String),
    String(String),
    Array(Vec<Json>),
    Object(Vec<(String, Json)>),
}

/// The value of the first member of `members` whose key is `key`.
pub open spec fn member_spec(members: Seq<(String, Json)>, key: Seq<char>) -> Option<Json>
    decreases members.len(),
{
    if members.len() == 0 {
        None
    } else if members[0].0@ == key {
        Some(members[0].1)
    } else {
        member_spec(members.drop_first(), key)
    }
}

/// The text of the member `key` of `members`, when that member is a string.
pub open spec fn str_member_spec(members: Seq<(String, Json)>, key: Seq<char>) -> Option<Seq<char>> {
    match member_spec(members, key) {
        Some(Json::String(s)) => Some(s@),
        _ => None,
    }
}

/// The member `key` of `members`, when that member is a boolean.
pub open spec fn bool_member_spec(members: Seq<(String, Json)>, key: Seq<char>) -> Option<bool> {
    match member_spec(members, key) {
        Some(Json::Bool(b)) => Some(b),
        _ => None,
    }
}

/// The first member of `members` whose key is `key`.
pub fn member<'a>(members: &'a Vec<(String, Json)>, key: &str) -> (m: Option<&'a Json>)
    ensures
        match m {
            Some(v) => member_spec(members@, key@) == Some(*v),
            None => member_spec(members@, key@).is_none(),
        },
{
    let name = key.to_owned();
    let mut i: usize = 0;
    assert(members@.skip(0) =~= members@);
    while i < members.len()
        invariant
            i <= members@.len(),
            name@ == key@,
            member_spec(members@, key@) == member_spec(members@.skip(i as int), key@),
        decreases members@.len() - i,
    {
        assert(members@.skip(i as int).len() > 0);
        assert(members@.skip(i as int)[0] == members@[i as int]);
        if members[i].0 == name {
            return Some(&members[i].1);
        }
        assert(members@.skip(i as int).drop_first() =~= members@.skip(i + 1));
        i = i + 1;
    }
    None
}

/// The text of the member `key` of `members`, when that member is a string.
pub fn str_member<'a>(members: &'a Vec<(String, Json)>, key: &str) -> (s: Option<&'a String>)
    ensures
        match s {
            Some(t) => str_member_spec(members@, key@) == Some(t@),
            None => str_member_spec(members@, key@).is_none(),
        },
{
    match member(members, key) {
        Some(Json::String(s)) => Some(s),
        _ => None,
    }
}

/// The member `key` of `members`, when that member is a boolean.
pub fn bool_member(members: &Vec<(String, Json)>, key: &str) -> (b: Option<bool>)
    ensures
        b == bool_member_spec(members@, key@),
{
    match member(members, key) {
        Some(Json::Bool(b)) => Some(*b),
        _ => None,
    }
}


/// Which objects a search looks for.
pub enum Pattern {
    /// An object that says where a worktree lives: string `repo_root` and
    /// string `checkout_path` members.
    WorktreeInfo,
    /// An object with a string `workspace_id` member.
    WorkspaceId,
    /// The object that describes the checkout at this path: its `path`
    /// member is this string and it has a string `branch` member.
    BranchOf(String),
}

/// What a [`Pattern`] looks for, with its path as text.
pub enum PatternView {
    WorktreeInfo,
    WorkspaceId,
    BranchOf(Seq<char>),
}

impl View for Pattern {
    type V = PatternView;

    open spec fn view(&self) -> PatternView {
        match self {
            Pattern::WorktreeInfo => PatternView::WorktreeInfo,
            Pattern::WorkspaceId => PatternView::WorkspaceId,
            Pattern::BranchOf(p) => PatternView::BranchOf(p@),
        }
    }
}

/// The object with members `members` is one that `p` looks for.
pub open spec fn pattern_matches(p: PatternView, members: Seq<(String, Json)>) -> bool {
    match p {
        PatternView::WorktreeInfo => str_member_spec(members, "repo_root"@).is_some()
            && str_member_spec(members, "checkout_path"@).is_some(),
        PatternView::WorkspaceId => str_member_spec(members, "workspace_id"@).is_some(),
        PatternView::BranchOf(path) => str_member_spec(members, "path"@) == Some(path)
            && str_member_spec(members, "branch"@).is_some(),
    }
}

/// The objects that `p` finds in `v`, in document order (depth first, each
/// member or item in turn): a matching object is taken whole and not looked
/// into; any other object or array is searched through.
pub open spec fn collect(v: Json, p: PatternView) -> Seq<Seq<(String, Json)>>
    decreases v,
{
    match v {
        Json::Object(members) => if pattern_matches(p, members@) {
            seq![members@]
        } else {
            collect_members(members@, p)
        },
        Json::Array(items) => collect_items(items@, p),
        _ => Seq::empty(),
    }
}

/// The objects that `p` finds in the values of `members`, in order.
pub open spec fn collect_members(members: Seq<(String, Json)>, p: PatternView) -> Seq<Seq<(String, Json)>>
    decreases members,
{
    if members.len() == 0 {
        Seq::empty()
    } else {
        collect_members(members.drop_last(), p) + collect(members.last().1, p)
    }
}

/// The objects that `p` finds in `items`, in order.
pub open spec fn collect_items(items: Seq<Json>, p: PatternView) -> Seq<Seq<(String, Json)>>
    decreases items,
{
    if items.len() == 0 {
        Seq::empty()
    } else {
        collect_items(items.drop_last(), p) + collect(items.last(), p)
    }
}

/// The member lists behind a list of borrowed objects.
pub open spec fn objects_view(found: Seq<&Vec<(String, Json)>>) -> Seq<Seq<(String, Json)>> {
    found.map_values(|o: &Vec<(String, Json)>| o@)
}

/// Whether the object with `members` is one that `pattern` looks for.
pub fn object_matches(members: &Vec<(String, Json)>, pattern: &Pattern) -> (m: bool)
    ensures
        m == pattern_matches(pattern@, members@),
{
    match pattern {
        Pattern::WorktreeInfo => str_member(members, "repo_root").is_some() && str_member(
            members,
            "checkout_path",
        ).is_some(),
        Pattern::WorkspaceId => str_member(members, "workspace_id").is_some(),
        Pattern::BranchOf(path) => match str_member(members, "path") {
            Some(p) => *p == *path && str_member(members, "branch").is_some(),
            None => false,
        },
    }
}

/// Appends to `out` the objects that `pattern` finds in `value`.
pub fn collect_objects<'a>(
    value: &'a Json,
    pattern: &Pattern,
    out: &mut Vec<&'a Vec<(String, Json)>>,
)
    ensures
        objects_view(final(out)@) == objects_view(old(out)@) + collect(*value, pattern@),
    decreases value,
{
    let ghost start = objects_view(out@);
    match value {
        Json::Object(members) => {
            if object_matches(members, pattern) {
                out.push(members);
                assert(objects_view(out@) =~= start + seq![members@]);
                return;
            }
            let mut k: usize = 0;
            assert(members@.take(0) =~= Seq::<(String, Json)>::empty());
            while k < members.len()
                invariant
                    k <= members@.len(),
                    *value == Json::Object(*members),
                    objects_view(out@) == start + collect_members(members@.take(k as int), pattern@),
                decreases members@.len() - k,
            {
                assert(decreases_to!(*value => (*value)->Object_0));
                assert(decreases_to!(*members => members@));
                assert(decreases_to!(members@ => members@[k as int]));
                assert(decreases_to!(members@[k as int] => members@[k as int].1));
                collect_objects(&members[k].1, pattern, out);
                assert(members@.take(k + 1).drop_last() =~= members@.take(k as int));
                k = k + 1;
            }
            assert(members@.take(k as int) =~= members@);
        },
        Json::Array(items) => {
            let mut k: usize = 0;
            assert(items@.take(0) =~= Seq::<Json>::empty());
            while k < items.len()
                invariant
                    k <= items@.len(),
                    *value == Json::Array(*items),
                    objects_view(out@) == start + collect_items(items@.take(k as int), pattern@),
                decreases items@.len() - k,
            {
                assert(decreases_to!(*value => (*value)->Array_0));
                assert(decreases_to!(*items => items@));
                assert(decreases_to!(items@ => items@[k as int]));
                collect_objects(&items[k], pattern, out);
                assert(items@.take(k + 1).drop_last() =~= items@.take(k as int));
                k = k + 1;
            }
            assert(items@.take(k as int) =~= items@);
        },
        _ => {
            assert(objects_view(out@) =~= start + Seq::<Seq<(String, Json)>>::empty());
        },
    }
}


/// The first object that `p` finds in `v`, in document order.
pub open spec fn first_object(v: Json, p: PatternView) -> Option<Seq<(String, Json)>> {
    let found = collect(v, p);
    if found.len() > 0 {
        Some(found[0])
    } else {
        None
    }
}

/// The first object that `pattern` finds in `value`.
pub fn find_object<'a>(value: &'a Json, pattern: &Pattern) -> (found: Option<&'a Vec<(String, Json)>>)
    ensures
        match found {
            Some(o) => first_object(*value, pattern@) == Some(o@),
            None => first_object(*value, pattern@).is_none(),
        },
{
    let mut found: Vec<&'a Vec<(String, Json)>> = Vec::new();
    collect_objects(value, pattern, &mut found);
    assert(objects_view(found@) =~= collect(*value, pattern@));
    if found.len() > 0 {
        assert(objects_view(found@)[0] == found@[0]@);
        Some(found[0])
    } else {
        None
    }
}


/// Every object that a search finds matches the pattern.
pub proof fn lemma_collect_matches(v: Json, p: PatternView, i: int)
    requires
        0 <= i < collect(v, p).len(),
    ensures
        pattern_matches(p, collect(v, p)[i]),
    decreases v,
{
    match v {
        Json::Object(members) => {
            if !pattern_matches(p, members@) {
                lemma_collect_members_match(members@, p, i);
            }
        },
        Json::Array(items) => {
            lemma_collect_items_match(items@, p, i);
        },
        _ => {},
    }
}

proof fn lemma_collect_members_match(members: Seq<(String, Json)>, p: PatternView, i: int)
    requires
        0 <= i < collect_members(members, p).len(),
    ensures
        pattern_matches(p, collect_members(members, p)[i]),
    decreases members,
{
    if members.len() > 0 {
        let front = collect_members(members.drop_last(), p);
        if i < front.len() {
            lemma_collect_members_match(members.drop_last(), p, i);
        } else {
            lemma_collect_matches(members.last().1, p, i - front.len());
        }
    }
}

proof fn lemma_collect_items_match(items: Seq<Json>, p: PatternView, i: int)
    requires
        0 <= i < collect_items(items, p).len(),
    ensures
        pattern_matches(p, collect_items(items, p)[i]),
    decreases items,
{
    if items.len() > 0 {
        let front = collect_items(items.drop_last(), p);
        if i < front.len() {
            lemma_collect_items_match(items.drop_last(), p, i);
        } else {
            lemma_collect_matches(items.last(), p, i - front.len());
        }
    }
}

/// `serde_json`'s document type, carried through the parse without being read.
#[verifier::external_type_specification]
#[verifier::external_body]
pub struct ExJsonValue(serde_json::Value);

/// The document that `serde_json` reads from `text`, or `None` when the text
/// is not JSON.
pub uninterp spec fn parsed_json(text: Seq<char>) -> Option<Json>;

/// The document that `serde_json` reads from the bytes `bytes`, or `None`
/// when they are not JSON (or not UTF-8).
pub uninterp spec fn parsed_json_bytes(bytes: Seq<u8>) -> Option<Json>;

/// The library's form of a `serde_json` document: each variant carried over
/// one for one, numbers as their text, object members in the map's order.
#[verifier::external_body]
fn json_from_value(value: &serde_json::Value) -> Json {
    match value {
        serde_json::Value::Null => Json::Null,
        serde_json::Value::Bool(b) => Json::Bool(*b),
        serde_json::Value::Number(n) => Json::Number(n.to_string()),
        serde_json::Value::String(s) => Json::String(s.clone()),
        serde_json::Value::Array(items) => Json::Array(items.iter().map(json_from_value).collect()),
        serde_json::Value::Object(m) => Json::Object(m.iter().map(|(k, v)| (k.clone(), json_from_value(v))).collect()),
    }
}

/// `serde_json`'s parse error.
#[verifier::external_type_specification]
#[verifier::external_body]
pub struct ExJsonError(serde_json::Error);

/// `serde_json::from_str` into a `serde_json::Value`, carried over to [`Json`].
///
/// Trusted: the claim is that the outcome is a function of the text alone,
/// named [`parsed_json`] (`None` for an error); what document a given text
/// gives is left to `serde_json` and not stated.
#[verifier::external_body]
fn read_json(text: &str) -> (r: Result<Json, serde_json::Error>)
    ensures
        match r {
            Ok(doc) => parsed_json(text@) == Some(doc),
            Err(_) => parsed_json(text@).is_none(),
        },
{
    serde_json::from_str::<serde_json::Value>(text).map(|v| json_from_value(&v))
}

/// `serde_json::from_slice` into a `serde_json::Value`, carried over to [`Json`].
///
/// Trusted: the claim is that the outcome is a function of the bytes alone,
/// named [`parsed_json_bytes`] (`None` for an error); what document given
/// bytes give is left to `serde_json` and not stated.
#[verifier::external_body]
fn read_json_bytes(bytes: &[u8]) -> (r: Result<Json, serde_json::Error>)
    ensures
        match r {
            Ok(doc) => parsed_json_bytes(bytes@) == Some(doc),
            Err(_) => parsed_json_bytes(bytes@).is_none(),
        },
{
    serde_json::from_slice::<serde_json::Value>(bytes).map(|v| json_from_value(&v))
}

/// The text of a `serde_json` error (its `Display`).
///
/// Trusted for nothing: no claim is made about the text.
#[verifier::external_body]
fn json_error_text(e: &serde_json::Error) -> String {
    e.to_string()
}

/// Why a text is not a JSON document, in `serde_json`'s words.
#[derive(Debug)]
pub struct JsonError {
    pub message: String,
}

/// Parses `text` as a JSON document.
pub fn parse_json(text: &str) -> (r: Result<Json, JsonError>)
    ensures
        match r {
            Ok(doc) => parsed_json(text@) == Some(doc),
            Err(_) => parsed_json(text@).is_none(),
        },
{
    match read_json(text) {
        Ok(doc) => Ok(doc),
        Err(e) => Err(JsonError { message: json_error_text(&e) }),
    }
}

/// Parses the bytes `bytes` (herdr's output) as a JSON document.
pub fn parse_json_bytes(bytes: &[u8]) -> (r: Result<Json, JsonError>)
    ensures
        match r {
            Ok(doc) => parsed_json_bytes(bytes@) == Some(doc),
            Err(_) => parsed_json_bytes(bytes@).is_none(),
        },
{
    match read_json_bytes(bytes) {
        Ok(doc) => Ok(doc),
        Err(e) => Err(JsonError { message: json_error_text(&e) }),
    }
}

} // verus!
