//! Helpers for locating freebuff chat directories and files.

use vstd::prelude::*;

use crate::json::{parse_json, Json, JsonV, json_parse, same_text};
use crate::text::{chars_of, parse_u64, parse_unsigned, string_from};

verus! {

/// Filename of a chat's transcript.
pub const CHAT_MESSAGES: &'static str = "chat-messages.json";

/// Filename of a chat's log.
pub const LOG: &'static str = "log.jsonl";

/// What `Path::file_name` gives for a path: its last component, `None` when
/// the path ends in `..` or is a root or empty.
pub uninterp spec fn path_file_name(path: Seq<char>) -> Option<Seq<char>>;

/// What `Path::join` gives on Unix (`PathBuf::push`): an absolute `part`
/// replaces `base`; otherwise `part` follows `base`, with a `/` between them
/// unless `base` is empty or already ends in `/`.
pub open spec fn path_join(base: Seq<char>, part: Seq<char>) -> Seq<char> {
    if part.len() > 0 && part[0] == '/' {
        part
    } else if base.len() == 0 || base.last() == '/' {
        base + part
    } else {
        base + seq!['/'] + part
    }
}

/// `Path::new(path).file_name()`, as text; the result is named by
/// [`path_file_name`].
#[verifier::external_body]
fn file_name_of(path: &str) -> (r: Option<String>)
    ensures
        match r {
            Some(s) => path_file_name(path@) == Some(s@),
            None => path_file_name(path@) is None,
        },
{
    std::path::Path::new(path).file_name().map(|s| s.to_string_lossy().into_owned())
}

/// `Path::new(base).join(part)` as text, on Unix: [`path_join`].
fn join_path(base: &str, part: &str) -> (r: String)
    ensures
        r@ == path_join(base@, part@),
{
    let b = chars_of(base);
    let p = chars_of(part);
    let mut out: Vec<char> = Vec::new();
    if p.len() > 0 && p[0] == '/' {
        return string_from(&p);
    }
    let mut i: usize = 0;
    while i < b.len()
        invariant
            i <= b@.len(),
            out@ == b@.take(i as int),
        decreases b@.len() - i,
    {
        out.push(b[i]);
        assert(b@.take(i + 1) == b@.take(i as int).push(b@[i as int]));
        i = i + 1;
    }
    assert(b@.take(b@.len() as int) == b@);
    if b.len() > 0 && b[b.len() - 1] != '/' {
        out.push('/');
    }
    let ghost head = out@;
    let mut j: usize = 0;
    while j < p.len()
        invariant
            j <= p@.len(),
            out@ == head + p@.take(j as int),
        decreases p@.len() - j,
    {
        out.push(p[j]);
        assert(p@.take(j + 1) == p@.take(j as int).push(p@[j as int]));
        j = j + 1;
    }
    assert(p@.take(p@.len() as int) == p@);
    string_from(&out)
}

/// The project name under which freebuff files the chats of `cwd`: the
/// last component of `cwd`, `unknown` when it has none.
pub open spec fn project_name(cwd: Seq<char>) -> Seq<char> {
    match path_file_name(cwd) {
        Some(n) => n,
        None => "unknown"@,
    }
}

/// What [`chats_dir`] returns: `<manicode>/projects/<project name>/chats`.
pub open spec fn chats_dir_spec(cwd: Seq<char>, manicode: Seq<char>) -> Seq<char> {
    path_join(path_join(path_join(manicode, "projects"@), project_name(cwd)), "chats"@)
}

/// Get the chats directory for a given working directory, under the
/// manicode config directory `manicode`.
/// Path: `<manicode_dir>/projects/<cwd file_name>/chats`
pub fn chats_dir(cwd: &str, manicode: &str) -> (r: String)
    ensures
        r@ == chats_dir_spec(cwd@, manicode@),
{
    let name = match file_name_of(cwd) {
        Some(n) => n,
        None => {
            let c = chars_of("unknown");
            string_from(&c)
        },
    };
    let projects = join_path(manicode, "projects");
    let project = join_path(projects.as_str(), name.as_str());
    join_path(project.as_str(), "chats")
}

/// `a` comes before or equals `b` in lexicographic order of characters
/// (the order of `String`'s `Ord`).
pub open spec fn text_le(a: Seq<char>, b: Seq<char>) -> bool
    decreases a.len(),
{
    if a.len() == 0 {
        true
    } else if b.len() == 0 {
        false
    } else if a[0] != b[0] {
        a[0] < b[0]
    } else {
        text_le(a.drop_first(), b.drop_first())
    }
}

/// Whether `a` comes before or equals `b`.
fn chars_le(a: &[char], b: &[char]) -> (r: bool)
    ensures
        r == text_le(a@, b@),
{
    assert(a@.subrange(0, a@.len() as int) == a@);
    assert(b@.subrange(0, b@.len() as int) == b@);
    let mut i: usize = 0;
    while i < a.len() && i < b.len() && a[i] == b[i]
        invariant
            i <= a@.len(),
            i <= b@.len(),
            text_le(a@, b@) == text_le(a@.subrange(i as int, a@.len() as int), b@.subrange(i as int, b@.len() as int)),
        decreases a@.len() - i,
    {
        let ghost x = a@.subrange(i as int, a@.len() as int);
        let ghost y = b@.subrange(i as int, b@.len() as int);
        assert(x.drop_first() == a@.subrange(i + 1, a@.len() as int));
        assert(y.drop_first() == b@.subrange(i + 1, b@.len() as int));
        i = i + 1;
    }
    let ghost x = a@.subrange(i as int, a@.len() as int);
    let ghost y = b@.subrange(i as int, b@.len() as int);
    if i == a.len() {
        true
    } else if i == b.len() {
        false
    } else {
        assert(x[0] == a@[i as int]);
        assert(y[0] == b@[i as int]);
        a[i] < b[i]
    }
}

proof fn lemma_text_le_total(a: Seq<char>, b: Seq<char>)
    ensures
        text_le(a, b) || text_le(b, a),
    decreases a.len(),
{
    if a.len() > 0 && b.len() > 0 && a[0] == b[0] {
        lemma_text_le_total(a.drop_first(), b.drop_first());
    }
}

proof fn lemma_text_le_trans(a: Seq<char>, b: Seq<char>, c: Seq<char>)
    requires
        text_le(a, b),
        text_le(b, c),
    ensures
        text_le(a, c),
    decreases a.len(),
{
    if a.len() > 0 && b.len() > 0 && c.len() > 0 && a[0] == b[0] && b[0] == c[0] {
        lemma_text_le_trans(a.drop_first(), b.drop_first(), c.drop_first());
    }
}

/// The names among `entries` that are not in `before`.
pub open spec fn new_names(entries: Seq<Seq<char>>, before: Seq<Seq<char>>) -> Set<Seq<char>> {
    Set::new(|n: Seq<char>| entries.contains(n) && !before.contains(n))
}

/// The greatest name, in lexicographic order, among `entries` that is not in
/// `before`; `None` when every entry is in `before`.
pub open spec fn is_newest_new(r: Option<Seq<char>>, entries: Seq<Seq<char>>, before: Seq<Seq<char>>) -> bool {
    match r {
        Some(n) => new_names(entries, before).contains(n) && forall|m: Seq<char>|
            #[trigger] new_names(entries, before).contains(m) ==> text_le(m, n),
        None => forall|m: Seq<char>| !(#[trigger] new_names(entries, before).contains(m)),
    }
}

/// Whether `names` holds `n`.
fn holds_name(names: &[String], n: &str) -> (b: bool)
    ensures
        b == names@.map_values(|s: String| s@).contains(n@),
{
    let ghost view = names@.map_values(|s: String| s@);
    let mut i: usize = 0;
    while i < names.len()
        invariant
            i <= names@.len(),
            view == names@.map_values(|s: String| s@),
            forall|k: int| 0 <= k < i ==> view[k] != n@,
        decreases names@.len() - i,
    {
        if same_text(names[i].as_str(), n) {
            assert(view[i as int] == n@);
            return true;
        }
        i = i + 1;
    }
    false
}

/// The newest entry of a chats directory listing (`entries`) that was not
/// there before (`before`): chat directories are named by ISO timestamps,
/// which sort lexicographically.
pub fn newest_new_name(entries: &[String], before: &[String]) -> (r: Option<String>)
    ensures
        is_newest_new(
            match r {
                Some(s) => Some(s@),
                None => None,
            },
            entries@.map_values(|s: String| s@),
            before@.map_values(|s: String| s@),
        ),
{
    let ghost es = entries@.map_values(|s: String| s@);
    let ghost bs = before@.map_values(|s: String| s@);
    let mut best: Option<usize> = None;
    let mut i: usize = 0;
    while i < entries.len()
        invariant
            i <= entries@.len(),
            es == entries@.map_values(|s: String| s@),
            bs == before@.map_values(|s: String| s@),
            match best {
                Some(b) => b < i && !bs.contains(es[b as int]) && forall|k: int|
                    0 <= k < i && !bs.contains(#[trigger] es[k]) ==> text_le(es[k], es[b as int]),
                None => forall|k: int| 0 <= k < i ==> bs.contains(#[trigger] es[k]),
            },
        decreases entries@.len() - i,
    {
        let name = entries[i].as_str();
        assert(es[i as int] == entries@[i as int]@);
        if !holds_name(before, name) {
            match best {
                None => {
                    proof {
                        lemma_text_le_total(es[i as int], es[i as int]);
                    }
                    best = Some(i);
                },
                Some(b) => {
                    let cb = chars_of(entries[b].as_str());
                    let cn = chars_of(name);
                    assert(es[b as int] == entries@[b as int]@);
                    if chars_le(&cb, &cn) {
                        proof {
                            assert forall|k: int| 0 <= k < i + 1 && !bs.contains(#[trigger] es[k]) implies text_le(es[k], es[i as int]) by {
                                if k < i {
                                    lemma_text_le_trans(es[k], es[b as int], es[i as int]);
                                }
                                if k == i {
                                    lemma_text_le_total(es[k], es[k]);
                                }
                            }
                        }
                        best = Some(i);
                    } else {
                        proof {
                            lemma_text_le_total(es[b as int], es[i as int]);
                            assert forall|k: int| 0 <= k < i + 1 && !bs.contains(#[trigger] es[k]) implies text_le(es[k], es[b as int]) by {
                                if k == i {
                                    assert(text_le(es[i as int], es[b as int]));
                                }
                            }
                        }
                    }
                },
            }
        }
        i = i + 1;
    }
    match best {
        Some(b) => {
            proof {
                assert(new_names(es, bs).contains(es[b as int]));
                assert forall|m: Seq<char>| #[trigger] new_names(es, bs).contains(m) implies text_le(m, es[b as int]) by {
                    let k = choose|k: int| 0 <= k < es.len() && es[k] == m;
                }
            }
            let c = chars_of(entries[b].as_str());
            Some(string_from(&c))
        },
        None => {
            proof {
                assert forall|m: Seq<char>| !(#[trigger] new_names(es, bs).contains(m)) by {
                    if es.contains(m) {
                        let k = choose|k: int| 0 <= k < es.len() && es[k] == m;
                    }
                }
            }
            None
        },
    }
}

/// Find the newest chat directory in `dir` not in `before`, given the
/// directory's entries: the path of the lexicographically greatest entry
/// that is not in `before`.
pub fn newest_new_chat(dir: &str, entries: &[String], before: &[String]) -> (r: Option<String>)
    ensures
        match r {
            Some(p) => exists|n: Seq<char>|
                is_newest_new(Some(n), entries@.map_values(|s: String| s@), before@.map_values(|s: String| s@))
                    && p@ == path_join(dir@, n),
            None => is_newest_new(None, entries@.map_values(|s: String| s@), before@.map_values(|s: String| s@)),
        },
{
    match newest_new_name(entries, before) {
        Some(n) => Some(join_path(dir, n.as_str())),
        None => None,
    }
}

/// What an owner file's parsed content gives: the owner's `instanceId` and
/// its `pid` (a non-negative integer, cut to its low 32 bits).
pub open spec fn owner_of(v: JsonV) -> Option<(Seq<char>, u32)> {
    match (v.str_field("instanceId"@), v.get("pid"@)) {
        (Some(id), Some(JsonV::Number(t))) => match parse_unsigned(t, u64::MAX as nat) {
            Some(n) => Some((id, (n % 0x1_0000_0000) as u32)),
            None => None,
        },
        _ => None,
    }
}

/// What [`parse_instance_owner`] returns: the owner read from the file's
/// JSON, `None` when the content is not JSON.
pub open spec fn instance_owner_spec(content: Seq<char>) -> Option<(Seq<char>, u32)> {
    match json_parse(content) {
        Ok(v) => owner_of(v),
        Err(_) => None,
    }
}

/// The owner that an owner file's parsed content names.
pub fn owner_from_json(v: &Json) -> (r: Option<(String, u32)>)
    ensures
        match r {
            Some((id, pid)) => owner_of(v@) == Some((id@, pid)),
            None => owner_of(v@) is None,
        },
{
    let id = match v.str_field("instanceId") {
        Some(s) => s.clone(),
        None => return None,
    };
    let t = match v.get("pid") {
        Some(Json::Number(t)) => t,
        _ => return None,
    };
    let c = chars_of(t.as_str());
    assert(c@.subrange(0, c@.len() as int) == c@);
    match parse_u64(&c, 0, c.len()) {
        Some(n) => Some((id, (n % 4294967296u64) as u32)),
        None => None,
    }
}

/// Parse the content of the freebuff instance owner file.
/// Returns (instance_id, pid) when it is valid.
pub fn parse_instance_owner(content: &str) -> (r: Option<(String, u32)>)
    ensures
        match r {
            Some((id, pid)) => instance_owner_spec(content@) == Some((id@, pid)),
            None => instance_owner_spec(content@) is None,
        },
{
    match parse_json(content) {
        Ok(v) => owner_from_json(&v),
        Err(_) => None,
    }
}

} // verus!
