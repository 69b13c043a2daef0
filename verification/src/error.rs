//! The three levels of failure: L1 is adapted to in place, L2 rolls back,
//! L3 resets.
use vstd::prelude::*;
use crate::json::{Json, JsonNumber, JsonV, NumberV, json_alike, json_text, lemma_view_array, obj_get, obj_get_ref, plain_json, to_json_text, view_object};
use crate::jsonc::{json_parse, parse_json};
use crate::text::{decimal, decimal_text, owned, push_str, str_eq, string_of};

verus! {

#[derive(Clone, Copy, PartialEq, Eq, Structural, Debug)]
pub enum ErrorLevel {
    L1,
    L2,
    L3,
}

/// A failure, with what its level needs.
#[derive(Debug)]
pub enum UnifiedError {
    L1 { message: String, category: String },
    L2 { message: String, rollback_target: String },
    L3 { message: String, prompt_tokens: Option<u32>, limit: Option<u32> },
}

/// A failure as plain values.
pub enum ErrorV {
    L1 { message: Seq<char>, category: Seq<char> },
    L2 { message: Seq<char>, rollback_target: Seq<char> },
    L3 { message: Seq<char>, prompt_tokens: Option<u32>, limit: Option<u32> },
}

impl View for UnifiedError {
    type V = ErrorV;

    open spec fn view(&self) -> ErrorV {
        match self {
            UnifiedError::L1 { message, category } => ErrorV::L1 { message: message@, category: category@ },
            UnifiedError::L2 { message, rollback_target } => ErrorV::L2 {
                message: message@,
                rollback_target: rollback_target@,
            },
            UnifiedError::L3 { message, prompt_tokens, limit } => ErrorV::L3 {
                message: message@,
                prompt_tokens: *prompt_tokens,
                limit: *limit,
            },
        }
    }
}

/// `Some(n)` or `None`, as `{:?}` writes an `Option<u32>`.
pub open spec fn option_debug(o: Option<u32>) -> Seq<char> {
    match o {
        Some(n) => "Some("@ + decimal(n as nat) + ")"@,
        None => "None"@,
    }
}

/// A number or null.
pub open spec fn option_json(o: Option<u32>) -> JsonV {
    match o {
        Some(n) => JsonV::Number(NumberV::PosInt(n as u64)),
        None => JsonV::Null,
    }
}

fn push_option_debug(out: &mut Vec<char>, o: Option<u32>)
    ensures
        final(out)@ == old(out)@ + option_debug(o),
{
    match o {
        Some(n) => {
            push_str(out, "Some(");
            let t = decimal_text(n as u128);
            push_str(out, t.as_str());
            push_str(out, ")");
        },
        None => {
            push_str(out, "None");
        },
    }
}

fn option_value(o: Option<u32>) -> (r: Json)
    ensures
        r@ == option_json(o),
{
    match o {
        Some(n) => Json::Number(JsonNumber::PosInt(n as u64)),
        None => Json::Null,
    }
}

/// The error as a JSON value: `{"level": ..., "payload": {...}}`, the
/// payload's members in the order the variant declares its fields.
pub open spec fn error_json(e: &UnifiedError) -> JsonV {
    match e {
    UnifiedError::L1 { message, category } => JsonV::Object(
        seq![
            ("level"@, JsonV::Str("L1"@)),
            ("payload"@, JsonV::Object(seq![
                ("message"@, JsonV::Str(message@)),
                ("category"@, JsonV::Str(category@)),
            ])),
        ],
    ),
    UnifiedError::L2 { message, rollback_target } => JsonV::Object(
        seq![
            ("level"@, JsonV::Str("L2"@)),
            ("payload"@, JsonV::Object(seq![
                ("message"@, JsonV::Str(message@)),
                ("rollback_target"@, JsonV::Str(rollback_target@)),
            ])),
        ],
    ),
    UnifiedError::L3 { message, prompt_tokens, limit } => JsonV::Object(
        seq![
            ("level"@, JsonV::Str("L3"@)),
            ("payload"@, JsonV::Object(seq![
                ("message"@, JsonV::Str(message@)),
                ("prompt_tokens"@, option_json(*prompt_tokens)),
                ("limit"@, option_json(*limit)),
            ])),
        ],
    ),
            }
}


/// Field `i` of `n` of a payload as serde reads a struct: by name from an
/// object (`None` inside for a missing one), by position from an array of
/// exactly `n` values; anything else is no struct.
pub open spec fn field_spec(p: JsonV, n: nat, i: int, name: Seq<char>) -> Option<Option<JsonV>> {
    match p {
        JsonV::Object(m) => Some(obj_get(m, name)),
        JsonV::Array(a) => if a.len() == n {
            Some(Some(a[i]))
        } else {
            None
        },
        _ => None,
    }
}

/// A `String` field: present and a JSON string.
pub open spec fn string_field(p: JsonV, n: nat, i: int, name: Seq<char>) -> Option<Seq<char>> {
    match field_spec(p, n, i, name) {
        Some(Some(JsonV::Str(s))) => Some(s),
        _ => None,
    }
}

/// An `Option<u32>` field: missing or null is none, an integer within
/// `u32` is that number; anything else fails (the outer `None`).
pub open spec fn count_field(p: JsonV, n: nat, i: int, name: Seq<char>) -> Option<Option<u32>> {
    match field_spec(p, n, i, name) {
        Some(None) => Some(None),
        Some(Some(JsonV::Null)) => Some(None),
        Some(Some(JsonV::Number(NumberV::PosInt(u)))) => if u <= u32::MAX {
            Some(Some(u as u32))
        } else {
            None
        },
        _ => None,
    }
}

/// The error a level tag and its payload stand for, as serde reads the
/// variant named by the tag.
pub open spec fn decode_variant(tag: JsonV, p: JsonV) -> Option<ErrorV> {
    match tag {
        JsonV::Str(t) => if t == "L1"@ {
            match (string_field(p, 2, 0, "message"@), string_field(p, 2, 1, "category"@)) {
                (Some(m), Some(c)) => Some(ErrorV::L1 { message: m, category: c }),
                _ => None,
            }
        } else if t == "L2"@ {
            match (string_field(p, 2, 0, "message"@), string_field(p, 2, 1, "rollback_target"@)) {
                (Some(m), Some(r)) => Some(ErrorV::L2 { message: m, rollback_target: r }),
                _ => None,
            }
        } else if t == "L3"@ {
            match (
                string_field(p, 3, 0, "message"@),
                count_field(p, 3, 1, "prompt_tokens"@),
                count_field(p, 3, 2, "limit"@),
            ) {
                (Some(m), Some(pt), Some(l)) => Some(ErrorV::L3 { message: m, prompt_tokens: pt, limit: l }),
                _ => None,
            }
        } else {
            None
        },
        _ => None,
    }
}

/// The error a JSON value holds, as serde reads the adjacently tagged
/// enum: `{"level": ..., "payload": ...}` (other members ignored), or the
/// pair `[level, payload]`.
pub open spec fn decode_error(v: Option<JsonV>) -> Option<ErrorV> {
    match v {
        Some(JsonV::Object(m)) => match (obj_get(m, "level"@), obj_get(m, "payload"@)) {
            (Some(t), Some(p)) => decode_variant(t, p),
            _ => None,
        },
        Some(JsonV::Array(a)) => if a.len() == 2 {
            decode_variant(a[0], a[1])
        } else {
            None
        },
        _ => None,
    }
}

fn field_at<'a>(p: &'a Json, n: usize, i: usize, name: &str) -> (r: Option<Option<&'a Json>>)
    requires
        i < n,
    ensures
        match r {
            None => field_spec(p@, n as nat, i as int, name@) is None,
            Some(None) => field_spec(p@, n as nat, i as int, name@) == Some(None::<JsonV>),
            Some(Some(x)) => field_spec(p@, n as nat, i as int, name@) == Some(Some(x@)),
        },
{
    match p {
        Json::Object(m) => Some(obj_get_ref(m, name)),
        Json::Array(a) => {
            proof {
                lemma_view_array(a@);
            }
            if a.len() == n {
                Some(Some(&a[i]))
            } else {
                None
            }
        },
        _ => None,
    }
}

fn read_string_field(p: &Json, n: usize, i: usize, name: &str) -> (r: Option<String>)
    requires
        i < n,
    ensures
        match r {
            Some(s) => string_field(p@, n as nat, i as int, name@) == Some(s@),
            None => string_field(p@, n as nat, i as int, name@) is None,
        },
{
    match field_at(p, n, i, name) {
        Some(Some(Json::Str(s))) => Some(s.clone()),
        _ => None,
    }
}

fn read_count_field(p: &Json, n: usize, i: usize, name: &str) -> (r: Option<Option<u32>>)
    requires
        i < n,
    ensures
        r == count_field(p@, n as nat, i as int, name@),
{
    match field_at(p, n, i, name) {
        None => None,
        Some(None) => Some(None),
        Some(Some(Json::Null)) => Some(None),
        Some(Some(Json::Number(JsonNumber::PosInt(u)))) => {
            if *u <= 4294967295u64 {
                Some(Some(*u as u32))
            } else {
                None
            }
        },
        _ => None,
    }
}

fn read_variant(tag: &Json, p: &Json) -> (r: Option<UnifiedError>)
    ensures
        match r {
            Some(e) => decode_variant(tag@, p@) == Some(e@),
            None => decode_variant(tag@, p@) is None,
        },
{
    proof {
        reveal_strlit("L1");
        reveal_strlit("L2");
        reveal_strlit("L3");
    }
    let t = match tag {
        Json::Str(t) => t,
        _ => {
            return None;
        },
    };
    if str_eq(t.as_str(), "L1") {
        match (read_string_field(p, 2, 0, "message"), read_string_field(p, 2, 1, "category")) {
            (Some(m), Some(c)) => Some(UnifiedError::L1 { message: m, category: c }),
            _ => None,
        }
    } else if str_eq(t.as_str(), "L2") {
        match (read_string_field(p, 2, 0, "message"), read_string_field(p, 2, 1, "rollback_target")) {
            (Some(m), Some(r)) => Some(UnifiedError::L2 { message: m, rollback_target: r }),
            _ => None,
        }
    } else if str_eq(t.as_str(), "L3") {
        match (
            read_string_field(p, 3, 0, "message"),
            read_count_field(p, 3, 1, "prompt_tokens"),
            read_count_field(p, 3, 2, "limit"),
        ) {
            (Some(m), Some(pt), Some(l)) => Some(UnifiedError::L3 { message: m, prompt_tokens: pt, limit: l }),
            _ => None,
        }
    } else {
        None
    }
}

/// The error a JSON value holds, as [`decode_error`] says.
pub fn error_from_json(v: Option<&Json>) -> (r: Option<UnifiedError>)
    ensures
        match r {
            Some(e) => decode_error(match v { Some(j) => Some(j@), None => None }) == Some(e@),
            None => decode_error(match v { Some(j) => Some(j@), None => None }) is None,
        },
{
    match v {
        Some(Json::Object(m)) => match (obj_get_ref(m, "level"), obj_get_ref(m, "payload")) {
            (Some(t), Some(p)) => read_variant(t, p),
            _ => None,
        },
        Some(Json::Array(a)) => {
            proof {
                lemma_view_array(a@);
            }
            if a.len() == 2 {
                read_variant(&a[0], &a[1])
            } else {
                None
            }
        },
        _ => None,
    }
}

proof fn lemma_obj2(k1: Seq<char>, v1: JsonV, k2: Seq<char>, v2: JsonV)
    requires
        k1 != k2,
    ensures
        obj_get(seq![(k1, v1), (k2, v2)], k1) == Some(v1),
        obj_get(seq![(k1, v1), (k2, v2)], k2) == Some(v2),
{
    let m = seq![(k1, v1), (k2, v2)];
    assert(m.drop_first().drop_first() =~= Seq::<(Seq<char>, JsonV)>::empty());
    assert(m.drop_first()[0] == (k2, v2));
    assert(crate::json::key_index(m.drop_first(), k2) == 0);
    assert(crate::json::key_index(m, k2) == 1);
}

proof fn lemma_obj3(k1: Seq<char>, v1: JsonV, k2: Seq<char>, v2: JsonV, k3: Seq<char>, v3: JsonV)
    requires
        k1 != k2,
        k1 != k3,
        k2 != k3,
    ensures
        obj_get(seq![(k1, v1), (k2, v2), (k3, v3)], k1) == Some(v1),
        obj_get(seq![(k1, v1), (k2, v2), (k3, v3)], k2) == Some(v2),
        obj_get(seq![(k1, v1), (k2, v2), (k3, v3)], k3) == Some(v3),
{
    let m = seq![(k1, v1), (k2, v2), (k3, v3)];
    let m1 = m.drop_first();
    let m2 = m1.drop_first();
    assert(m2.drop_first() =~= Seq::<(Seq<char>, JsonV)>::empty());
    assert(m1[0] == (k2, v2) && m2[0] == (k3, v3));
    assert(crate::json::key_index(m2, k3) == 0);
    assert(crate::json::key_index(m1, k3) == 1);
    assert(crate::json::key_index(m, k3) == 2);
    assert(crate::json::key_index(m1, k2) == 0);
    assert(crate::json::key_index(m, k2) == 1);
}

proof fn lemma_count_round_trip(o: Option<u32>)
    ensures
        match option_json(o) {
            JsonV::Null => o is None,
            JsonV::Number(NumberV::PosInt(u)) => u <= u32::MAX && o == Some(u as u32),
            _ => false,
        },
{
}

proof fn lemma_error_json_plain(e: UnifiedError)
    ensures
        plain_json(error_json(&e), 100),
{
    reveal_strlit("level");
    reveal_strlit("payload");
    reveal_strlit("message");
    reveal_strlit("category");
    reveal_strlit("rollback_target");
    reveal_strlit("prompt_tokens");
    reveal_strlit("limit");
    assert("level"@.len() != "payload"@.len());
    assert("message"@[0] != "category"@[0]);
    assert("message"@.len() != "rollback_target"@.len());
    assert("message"@.len() != "prompt_tokens"@.len());
    assert("message"@.len() != "limit"@.len());
    assert("prompt_tokens"@.len() != "limit"@.len());
    let top = match error_json(&e) {
        JsonV::Object(m) => m,
        _ => Seq::empty(),
    };
    let p = match top[1].1 {
        JsonV::Object(m) => m,
        _ => Seq::empty(),
    };
    assert(forall|i: int| 0 <= i < p.len() ==> plain_json((#[trigger] p[i]).1, 98));
    assert(plain_json(top[1].1, 99));
    assert(plain_json(top[0].1, 99));
}

proof fn lemma_decode_alike(e: UnifiedError, b: JsonV)
    requires
        json_alike(error_json(&e), b),
    ensures
        decode_error(Some(b)) == Some(e@),
{
    reveal_strlit("level");
    reveal_strlit("payload");
    reveal_strlit("message");
    reveal_strlit("category");
    reveal_strlit("rollback_target");
    reveal_strlit("prompt_tokens");
    reveal_strlit("limit");
    reveal_strlit("L1");
    reveal_strlit("L2");
    reveal_strlit("L3");
    let top = match error_json(&e) {
        JsonV::Object(m) => m,
        _ => Seq::empty(),
    };
    let bm = match b {
        JsonV::Object(n) => n,
        _ => Seq::empty(),
    };
    assert(top[0].0 == "level"@ && top[1].0 == "payload"@);
    assert(obj_get(bm, top[0].0) is Some && json_alike(top[0].1, obj_get(bm, top[0].0)->0));
    assert(obj_get(bm, top[1].0) is Some && json_alike(top[1].1, obj_get(bm, top[1].0)->0));
    let y = obj_get(bm, "payload"@)->0;
    let p = match top[1].1 {
        JsonV::Object(m) => m,
        _ => Seq::empty(),
    };
    let pm = match y {
        JsonV::Object(n) => n,
        _ => Seq::empty(),
    };
    assert(obj_get(pm, p[0].0) is Some && json_alike(p[0].1, obj_get(pm, p[0].0)->0));
    assert(obj_get(pm, p[1].0) is Some && json_alike(p[1].1, obj_get(pm, p[1].0)->0));
    match &e {
        UnifiedError::L3 { .. } => {
            assert(obj_get(pm, p[2].0) is Some && json_alike(p[2].1, obj_get(pm, p[2].0)->0));
        },
        _ => {},
    }
    law_error_json_round_trip(e);
}

/// Reading an error back from its JSON value gives the error again: what
/// [`decode_error`] makes of [`error_json`] of `e` is `e`.
pub proof fn law_error_json_round_trip(e: UnifiedError)
    ensures
        decode_error(Some(error_json(&e))) == Some(e@),
{
    reveal_strlit("level");
    reveal_strlit("payload");
    reveal_strlit("message");
    reveal_strlit("category");
    reveal_strlit("rollback_target");
    reveal_strlit("prompt_tokens");
    reveal_strlit("limit");
    reveal_strlit("L1");
    reveal_strlit("L2");
    reveal_strlit("L3");
    assert("level"@.len() != "payload"@.len());
    assert("L1"@[1] != "L2"@[1] && "L1"@[1] != "L3"@[1] && "L2"@[1] != "L3"@[1]);
    match &e {
        UnifiedError::L1 { message, category } => {
            let p = JsonV::Object(seq![("message"@, JsonV::Str(message@)), ("category"@, JsonV::Str(category@))]);
            assert("message"@[0] != "category"@[0]);
            lemma_obj2("message"@, JsonV::Str(message@), "category"@, JsonV::Str(category@));
            lemma_obj2("level"@, JsonV::Str("L1"@), "payload"@, p);
            assert(string_field(p, 2, 0, "message"@) == Some(message@));
            assert(string_field(p, 2, 1, "category"@) == Some(category@));
            assert(decode_variant(JsonV::Str("L1"@), p) == Some(e@));
        },
        UnifiedError::L2 { message, rollback_target } => {
            let p = JsonV::Object(
                seq![("message"@, JsonV::Str(message@)), ("rollback_target"@, JsonV::Str(rollback_target@))],
            );
            assert("message"@.len() != "rollback_target"@.len());
            lemma_obj2("message"@, JsonV::Str(message@), "rollback_target"@, JsonV::Str(rollback_target@));
            lemma_obj2("level"@, JsonV::Str("L2"@), "payload"@, p);
            assert(string_field(p, 2, 0, "message"@) == Some(message@));
            assert(string_field(p, 2, 1, "rollback_target"@) == Some(rollback_target@));
            assert(decode_variant(JsonV::Str("L2"@), p) == Some(e@));
        },
        UnifiedError::L3 { message, prompt_tokens, limit } => {
            let p = JsonV::Object(
                seq![
                    ("message"@, JsonV::Str(message@)),
                    ("prompt_tokens"@, option_json(*prompt_tokens)),
                    ("limit"@, option_json(*limit)),
                ],
            );
            assert("message"@.len() != "prompt_tokens"@.len());
            assert("message"@.len() != "limit"@.len());
            assert("prompt_tokens"@.len() != "limit"@.len());
            lemma_obj3(
                "message"@,
                JsonV::Str(message@),
                "prompt_tokens"@,
                option_json(*prompt_tokens),
                "limit"@,
                option_json(*limit),
            );
            lemma_obj2("level"@, JsonV::Str("L3"@), "payload"@, p);
            lemma_count_round_trip(*prompt_tokens);
            lemma_count_round_trip(*limit);
            assert(string_field(p, 3, 0, "message"@) == Some(message@));
            assert(count_field(p, 3, 1, "prompt_tokens"@) == Some(*prompt_tokens));
            assert(count_field(p, 3, 2, "limit"@) == Some(*limit));
            assert(decode_variant(JsonV::Str("L3"@), p) == Some(e@));
        },
    }
}

impl UnifiedError {
    /// A copy of the error.
    pub fn duplicate(&self) -> (r: UnifiedError)
        ensures
            r@ == self@,
    {
        match self {
            UnifiedError::L1 { message, category } => UnifiedError::L1 {
                message: message.clone(),
                category: category.clone(),
            },
            UnifiedError::L2 { message, rollback_target } => UnifiedError::L2 {
                message: message.clone(),
                rollback_target: rollback_target.clone(),
            },
            UnifiedError::L3 { message, prompt_tokens, limit } => UnifiedError::L3 {
                message: message.clone(),
                prompt_tokens: *prompt_tokens,
                limit: *limit,
            },
        }
    }

    pub fn error_level(&self) -> (r: ErrorLevel)
        ensures
            match self {
                UnifiedError::L1 { .. } => r == ErrorLevel::L1,
                UnifiedError::L2 { .. } => r == ErrorLevel::L2,
                UnifiedError::L3 { .. } => r == ErrorLevel::L3,
            },
    {
        match self {
            UnifiedError::L1 { .. } => ErrorLevel::L1,
            UnifiedError::L2 { .. } => ErrorLevel::L2,
            UnifiedError::L3 { .. } => ErrorLevel::L3,
        }
    }

    pub fn l1(message: &str, category: &str) -> (r: UnifiedError)
        ensures
            r matches UnifiedError::L1 { message: m, category: c } && m@ == message@ && c@
                == category@,
    {
        UnifiedError::L1 { message: owned(message), category: owned(category) }
    }

    pub fn l2(message: &str, rollback_target: &str) -> (r: UnifiedError)
        ensures
            r matches UnifiedError::L2 { message: m, rollback_target: t } && m@ == message@ && t@
                == rollback_target@,
    {
        UnifiedError::L2 { message: owned(message), rollback_target: owned(rollback_target) }
    }

    pub fn l3(message: &str, prompt_tokens: Option<u32>, limit: Option<u32>) -> (r: UnifiedError)
        ensures
            r matches UnifiedError::L3 { message: m, prompt_tokens: p, limit: l } && m@ == message@
                && p == prompt_tokens && l == limit,
    {
        UnifiedError::L3 { message: owned(message), prompt_tokens, limit }
    }

    /// The human-readable text of the error.
    pub fn to_text(&self) -> (r: String)
        ensures
            match self {
                UnifiedError::L1 { message, category } => r@ == "L1 (Adaptation) Error: "@
                    + message@ + " ("@ + category@ + ")"@,
                UnifiedError::L2 { message, rollback_target } => r@ == "L2 (Rollback) Error: "@
                    + message@ + " (rollback to: "@ + rollback_target@ + ")"@,
                UnifiedError::L3 { message, prompt_tokens, limit } => r@
                    == "L3 (Reset) Error: "@ + message@ + " (tokens: "@ + option_debug(
                    *prompt_tokens,
                ) + "/"@ + option_debug(*limit) + ")"@,
            },
    {
        let mut b: Vec<char> = Vec::new();
        match self {
            UnifiedError::L1 { message, category } => {
                push_str(&mut b, "L1 (Adaptation) Error: ");
                push_str(&mut b, message.as_str());
                push_str(&mut b, " (");
                push_str(&mut b, category.as_str());
                push_str(&mut b, ")");
            },
            UnifiedError::L2 { message, rollback_target } => {
                push_str(&mut b, "L2 (Rollback) Error: ");
                push_str(&mut b, message.as_str());
                push_str(&mut b, " (rollback to: ");
                push_str(&mut b, rollback_target.as_str());
                push_str(&mut b, ")");
            },
            UnifiedError::L3 { message, prompt_tokens, limit } => {
                push_str(&mut b, "L3 (Reset) Error: ");
                push_str(&mut b, message.as_str());
                push_str(&mut b, " (tokens: ");
                push_option_debug(&mut b, *prompt_tokens);
                push_str(&mut b, "/");
                push_option_debug(&mut b, *limit);
                push_str(&mut b, ")");
            },
        }
        string_of(b.as_slice())
    }

    /// The error as a JSON value, as [`error_json`] says.
    pub fn to_json(&self) -> (r: Json)
        ensures
            r@ == error_json(self),
    {
        let mut payload: Vec<(String, Json)> = Vec::new();
        let level = match self {
            UnifiedError::L1 { message, category } => {
                payload.push((owned("message"), Json::Str(message.clone())));
                payload.push((owned("category"), Json::Str(category.clone())));
                owned("L1")
            },
            UnifiedError::L2 { message, rollback_target } => {
                payload.push((owned("message"), Json::Str(message.clone())));
                payload.push((owned("rollback_target"), Json::Str(rollback_target.clone())));
                owned("L2")
            },
            UnifiedError::L3 { message, prompt_tokens, limit } => {
                payload.push((owned("message"), Json::Str(message.clone())));
                payload.push((owned("prompt_tokens"), option_value(*prompt_tokens)));
                payload.push((owned("limit"), option_value(*limit)));
                owned("L3")
            },
        };
        proof {
            crate::json::lemma_view_object(payload@);
        }
        let ghost pv = view_object(payload@);
        let mut top: Vec<(String, Json)> = Vec::new();
        top.push((owned("level"), Json::Str(level)));
        top.push((owned("payload"), Json::Object(payload)));
        proof {
            crate::json::lemma_view_object(top@);
            match self {
                UnifiedError::L1 { message, category } => {
                    assert(pv =~= seq![
                        ("message"@, JsonV::Str(message@)),
                        ("category"@, JsonV::Str(category@)),
                    ]);
                },
                UnifiedError::L2 { message, rollback_target } => {
                    assert(pv =~= seq![
                        ("message"@, JsonV::Str(message@)),
                        ("rollback_target"@, JsonV::Str(rollback_target@)),
                    ]);
                },
                UnifiedError::L3 { message, prompt_tokens, limit } => {
                    assert(pv =~= seq![
                        ("message"@, JsonV::Str(message@)),
                        ("prompt_tokens"@, option_json(*prompt_tokens)),
                        ("limit"@, option_json(*limit)),
                    ]);
                },
            }
        }
        let r = Json::Object(top);
        proof {
            assert(view_object(top@) =~= seq![
                ("level"@, top@[0].1@),
                ("payload"@, JsonV::Object(pv)),
            ]);
        }
        r
    }

    /// The error as JSON text, as the host's RPC replies carry it.
    pub fn to_json_string(&self) -> (r: String)
        ensures
            r@ == json_text(error_json(self)),
    {
        let j = self.to_json();
        to_json_text(&j)
    }

    /// The error that JSON text holds: the text read as JSON, then the
    /// error read from that value as [`decode_error`] says; `None` when
    /// either fails. An object's key given twice counts once, with its last
    /// value.
    ///
    /// The text [`UnifiedError::to_json_string`] writes of an error reads
    /// back as that error.
    pub fn from_json_string(s: &str) -> (r: Option<UnifiedError>)
        ensures
            match r {
                Some(e) => decode_error(json_parse(s@)) == Some(e@),
                None => decode_error(json_parse(s@)) is None,
            },
            forall|e: UnifiedError| s@ == #[trigger] json_text(error_json(&e)) ==> (r matches Some(x) && x@ == e@),
    {
        let parsed = parse_json(s);
        let r = match &parsed {
            Some(j) => error_from_json(Some(j)),
            None => error_from_json(None),
        };
        proof {
            assert forall|e: UnifiedError| s@ == #[trigger] json_text(error_json(&e)) implies (r matches Some(x)
                && x@ == e@) by {
                lemma_error_json_plain(e);
                let v = error_json(&e);
                assert(plain_json(v, 100) && s@ == json_text(v));
                let j = parsed->0;
                assert(json_alike(v, j@));
                lemma_decode_alike(e, j@);
            }
        }
        r
    }
}

} // verus!
