//! ECS-shaped row helpers for security signal extraction.
//!
//! These helpers produce small, stable signal strings. Aggregators can lift
//! row-level signals such as `auth.failure` into higher-order signals such
//! as `auth.failure.burst` before running the security skill catalog.

pub mod signals;

use vstd::prelude::*;
use vstd::utf8::{decode_utf8, valid_utf8};

use crate::security::ecs::signals::{
    AUTH_FAILURE, AUTH_SUCCESS, DNS_QUERY, LATERAL_MOVE, NETWORK_EGRESS, NETWORK_INGRESS,
    NET_CONNECT, PROCESS_SPAWN,
};
use crate::text::{
    chars_of, find_chars, find_from, is_whitespace, skip_chars, str_equal, string_from_chars, take_chars,
    trim_start, trim_start_index, utf8_text,
};

verus! {

/// `"field"`: the field name in double quotes, as it appears as a JSON key.
pub open spec fn quoted(field: Seq<char>) -> Seq<char> {
    seq!['"'] + field + seq!['"']
}

/// The string value of the first `"field"` key of `text`: the text between
/// the double quote that follows the next `:` (after whitespace) and the
/// next double quote. `None` when any of these pieces is missing.
pub open spec fn string_field(text: Seq<char>, field: Seq<char>) -> Option<Seq<char>> {
    let needle = quoted(field);
    match find_from(text, needle, 0) {
        None => None,
        Some(start) => {
            let after = text.skip(start + needle.len());
            match find_from(after, seq![':'], 0) {
                None => None,
                Some(colon) => {
                    let rest = trim_start(after.skip(colon + 1));
                    if rest.len() > 0 && rest[0] == '"' {
                        let body = rest.skip(1);
                        match find_from(body, seq!['"'], 0) {
                            None => None,
                            Some(end) => Some(body.take(end)),
                        }
                    } else {
                        None
                    }
                }
            }
        },
    }
}

/// `find_from` reports the first occurrence at or after `p`.
proof fn lemma_find_from_first(text: Seq<char>, pat: Seq<char>, p: int, q: int)
    requires
        0 <= p <= q,
        q + pat.len() <= text.len(),
        text.subrange(q, q + pat.len()) == pat,
        forall|r: int| p <= r < q ==> #[trigger] text.subrange(r, r + pat.len()) != pat,
    ensures
        find_from(text, pat, p) == Some(q),
    decreases q - p,
{
    if p < q {
        assert(text.subrange(p, p + pat.len()) != pat);
        lemma_find_from_first(text, pat, p + 1, q);
    }
}

/// Whitespace before `s` is what `trim_start` drops.
proof fn lemma_trim_whitespace(ws: Seq<char>, s: Seq<char>)
    requires
        forall|i: int| 0 <= i < ws.len() ==> is_whitespace(#[trigger] ws[i]),
        s.len() > 0 && !is_whitespace(s[0]),
    ensures
        trim_start(ws + s) == s,
    decreases ws.len(),
{
    if ws.len() == 0 {
        assert(ws + s =~= s);
    } else {
        assert((ws + s).drop_first() =~= ws.drop_first() + s);
        assert forall|i: int| 0 <= i < ws.drop_first().len() implies is_whitespace(#[trigger] ws.drop_first()[i]) by {
            assert(ws.drop_first()[i] == ws[i + 1]);
        }
        lemma_trim_whitespace(ws.drop_first(), s);
    }
}

/// Reading a string field: in a text made of `pre`, the quoted field name,
/// a colon, whitespace, a quoted value without quotes inside, and `post`,
/// where the quoted name does not occur earlier, the field reads as that
/// value.
pub proof fn law_string_field_reads(
    pre: Seq<char>,
    field: Seq<char>,
    ws: Seq<char>,
    value: Seq<char>,
    post: Seq<char>,
)
    requires
        forall|i: int| 0 <= i < ws.len() ==> is_whitespace(#[trigger] ws[i]),
        forall|i: int| 0 <= i < value.len() ==> #[trigger] value[i] != '"',
        forall|r: int|
            0 <= r < pre.len() ==> #[trigger] (pre + quoted(field) + seq![':'] + ws + quoted(value) + post).subrange(
                r,
                r + quoted(field).len(),
            ) != quoted(field),
    ensures
        string_field(pre + quoted(field) + seq![':'] + ws + quoted(value) + post, field) == Some(value),
{
    let needle = quoted(field);
    let text = pre + needle + seq![':'] + ws + quoted(value) + post;
    assert(text.subrange(pre.len() as int, (pre.len() + needle.len()) as int) =~= needle);
    lemma_find_from_first(text, needle, 0, pre.len() as int);
    let after = text.skip((pre.len() + needle.len()) as int);
    assert(after =~= seq![':'] + ws + quoted(value) + post);
    assert(after.subrange(0, 1) =~= seq![':']);
    lemma_find_from_first(after, seq![':'], 0, 0);
    let tail = after.skip(1);
    assert(tail =~= ws + (quoted(value) + post));
    assert(!is_whitespace('"'));
    lemma_trim_whitespace(ws, quoted(value) + post);
    let rest = quoted(value) + post;
    assert(rest[0] == '"');
    let body = rest.skip(1);
    assert(body =~= value + seq!['"'] + post);
    assert(body.subrange(value.len() as int, (value.len() + 1) as int) =~= seq!['"']);
    assert forall|r: int| 0 <= r < value.len() implies #[trigger] body.subrange(r, r + 1) != seq!['"'] by {
        assert(body.subrange(r, r + 1)[0] == value[r]);
    }
    lemma_find_from_first(body, seq!['"'], 0, value.len() as int);
    assert(body.take(value.len() as int) =~= value);
}

/// `out` with `s` appended unless it is already present.
pub open spec fn push_unique_model(out: Seq<Seq<char>>, s: Seq<char>) -> Seq<Seq<char>> {
    if out.contains(s) {
        out
    } else {
        out.push(s)
    }
}

/// `v` holds one of `options`.
pub open spec fn is_one_of(v: Option<Seq<char>>, options: Seq<Seq<char>>) -> bool {
    v matches Some(x) && options.contains(x)
}

/// The security signals of one ECS-shaped row of text, in the order the
/// rules add them:
/// * authentication (by category or login action): `auth.success` when the
///   outcome is `success`, else `auth.failure`;
/// * process category or process start/exec/spawn action: `process.spawn`;
/// * network category: `net.connect`, plus `network.egress` or
///   `network.ingress` by direction;
/// * DNS query action: `dns.query`;
/// * lateral-movement action: `lateral.move`.
pub open spec fn ecs_signals_model(text: Seq<char>) -> Seq<Seq<char>> {
    let category = string_field(text, "event.category"@);
    let action = string_field(text, "event.action"@);
    let outcome = string_field(text, "event.outcome"@);
    let direction = string_field(text, "network.direction"@);
    let s0 = Seq::<Seq<char>>::empty();
    let s1 = if category == Some("authentication"@) || is_one_of(
        action,
        seq!["logon"@, "login"@, "user_login"@, "ssh_login"@],
    ) {
        if outcome == Some("success"@) {
            push_unique_model(s0, AUTH_SUCCESS@)
        } else {
            push_unique_model(s0, AUTH_FAILURE@)
        }
    } else {
        s0
    };
    let s2 = if category == Some("process"@) || is_one_of(
        action,
        seq!["process_start"@, "process_exec"@, "exec"@, "spawn"@],
    ) {
        push_unique_model(s1, PROCESS_SPAWN@)
    } else {
        s1
    };
    let s3 = if category == Some("network"@) {
        let t = push_unique_model(s2, NET_CONNECT@);
        if is_one_of(direction, seq!["outbound"@, "egress"@]) {
            push_unique_model(t, NETWORK_EGRESS@)
        } else if is_one_of(direction, seq!["inbound"@, "ingress"@]) {
            push_unique_model(t, NETWORK_INGRESS@)
        } else {
            t
        }
    } else {
        s2
    };
    let s4 = if is_one_of(action, seq!["dns_query"@, "query"@]) {
        push_unique_model(s3, DNS_QUERY@)
    } else {
        s3
    };
    if is_one_of(action, seq!["lateral_move"@, "psexec"@, "wmiexec"@]) {
        push_unique_model(s4, LATERAL_MOVE@)
    } else {
        s4
    }
}

/// The security signals of one raw row: none for bytes that are not UTF-8.
pub open spec fn ecs_security_signals_model(row: Seq<u8>) -> Seq<Seq<char>> {
    if valid_utf8(row) {
        ecs_signals_model(decode_utf8(row))
    } else {
        Seq::empty()
    }
}

/// The value of the first `"field"` string key of `text`, read without
/// parsing the whole JSON document.
pub fn find_string_field(s: &str, field: &str) -> (value: Option<String>)
    ensures
        match value {
            Some(v) => string_field(s@, field@) == Some(v@),
            None => string_field(s@, field@) is None,
        },
{
    let chars = chars_of(s);
    let text = &chars;
    let mut needle: Vec<char> = Vec::new();
    needle.push('"');
    let field_chars = chars_of(field);
    let mut i: usize = 0;
    while i < field_chars.len()
        invariant
            i <= field_chars@.len(),
            needle@ == seq!['"'] + field_chars@.take(i as int),
        decreases field_chars.len() - i,
    {
        needle.push(field_chars[i]);
        i = i + 1;
        proof {
            assert(needle@ =~= seq!['"'] + field_chars@.take(i as int));
        }
    }
    needle.push('"');
    proof {
        assert(field_chars@.take(field_chars@.len() as int) =~= field_chars@);
        assert(needle@ =~= quoted(field@));
    }
    let start = match find_chars(text, &needle) {
        Some(p) => p,
        None => return None,
    };
    proof {
        assert(text@.len() == text.len());
    }
    let after = skip_chars(text, start + needle.len());
    let mut colon_pat: Vec<char> = Vec::new();
    colon_pat.push(':');
    proof {
        assert(colon_pat@ =~= seq![':']);
    }
    let colon = match find_chars(&after, &colon_pat) {
        Some(p) => p,
        None => return None,
    };
    proof {
        assert(after@.len() == after.len());
    }
    let tail = skip_chars(&after, colon + 1);
    let ws = trim_start_index(&tail);
    let rest = skip_chars(&tail, ws);
    if rest.len() == 0 || rest[0] != '"' {
        return None;
    }
    let body = skip_chars(&rest, 1);
    let mut quote_pat: Vec<char> = Vec::new();
    quote_pat.push('"');
    proof {
        assert(quote_pat@ =~= seq!['"']);
    }
    let end = match find_chars(&body, &quote_pat) {
        Some(p) => p,
        None => return None,
    };
    let value = take_chars(&body, end);
    Some(string_from_chars(value.as_slice()))
}

/// Whether `value` holds exactly `expected`.
fn is_value(value: &Option<String>, expected: &str) -> (r: bool)
    ensures
        r == (match value {
            Some(v) => v@ == expected@,
            None => false,
        }),
{
    match value {
        Some(v) => str_equal(v.as_str(), expected),
        None => false,
    }
}

/// Append `signal` to `out` unless it is already there.
pub fn push_unique(out: &mut Vec<&'static str>, signal: &'static str)
    ensures
        final(out)@.map_values(|s: &str| s@) == push_unique_model(
            old(out)@.map_values(|s: &str| s@),
            signal@,
        ),
{
    let ghost before = out@.map_values(|s: &str| s@);
    let mut i: usize = 0;
    while i < out.len()
        invariant
            i <= out@.len(),
            before == out@.map_values(|s: &str| s@),
            forall|j: int| 0 <= j < i ==> out@[j]@ != signal@,
        decreases out.len() - i,
    {
        if str_equal(out[i], signal) {
            proof {
                assert(before[i as int] == signal@);
            }
            return;
        }
        i = i + 1;
    }
    proof {
        assert(!before.contains(signal@)) by {
            if before.contains(signal@) {
                let j = choose|j: int| 0 <= j < before.len() && before[j] == signal@;
                assert(out@[j]@ == signal@);
            }
        }
    }
    out.push(signal);
    proof {
        assert(out@.map_values(|s: &str| s@) =~= before.push(signal@));
    }
}

/// Whether `value` holds one of `first`, `second`, `third` or `fourth`.
fn is_any_of4(value: &Option<String>, first: &str, second: &str, third: &str, fourth: &str) -> (r: bool)
    ensures
        r == (match value {
            Some(v) => v@ == first@ || v@ == second@ || v@ == third@ || v@ == fourth@,
            None => false,
        }),
{
    is_value(value, first) || is_value(value, second) || is_value(value, third) || is_value(value, fourth)
}

/// The field values of a row as optional character sequences.
pub open spec fn field_of(value: Option<String>) -> Option<Seq<char>> {
    match value {
        Some(v) => Some(v@),
        None => None,
    }
}

/// Classify one ECS-shaped JSON row into security signals.
///
/// The scanner looks for the common ECS fields by string, without parsing
/// the full JSON document. Non-UTF-8 rows and rows without recognizable
/// ECS fields return no signals.
pub fn ecs_security_signals(row: &[u8]) -> (out: Vec<&'static str>)
    ensures
        out@.map_values(|s: &str| s@) == ecs_security_signals_model(row@),
{
    let text = match utf8_text(row) {
        Some(t) => t,
        None => {
            let empty: Vec<&'static str> = Vec::new();
            proof {
                assert(empty@.map_values(|s: &str| s@) =~= Seq::<Seq<char>>::empty());
            }
            return empty;
        },
    };
    let category = find_string_field(text, "event.category");
    let action = find_string_field(text, "event.action");
    let outcome = find_string_field(text, "event.outcome");
    let direction = find_string_field(text, "network.direction");
    let ghost t = text@;
    let ghost cat = string_field(t, "event.category"@);
    let ghost act = string_field(t, "event.action"@);
    let ghost outc = string_field(t, "event.outcome"@);
    let ghost dir = string_field(t, "network.direction"@);
    assert(field_of(category) == cat);
    assert(field_of(action) == act);
    assert(field_of(outcome) == outc);
    assert(field_of(direction) == dir);
    let mut out: Vec<&'static str> = Vec::new();
    proof {
        assert(out@.map_values(|s: &str| s@) =~= Seq::<Seq<char>>::empty());
        let logins = seq!["logon"@, "login"@, "user_login"@, "ssh_login"@];
        assert(logins[0] == "logon"@ && logins[1] == "login"@ && logins[2] == "user_login"@
            && logins[3] == "ssh_login"@);
        let spawns = seq!["process_start"@, "process_exec"@, "exec"@, "spawn"@];
        assert(spawns[0] == "process_start"@ && spawns[1] == "process_exec"@ && spawns[2] == "exec"@
            && spawns[3] == "spawn"@);
        let outs = seq!["outbound"@, "egress"@];
        assert(outs[0] == "outbound"@ && outs[1] == "egress"@);
        let ins = seq!["inbound"@, "ingress"@];
        assert(ins[0] == "inbound"@ && ins[1] == "ingress"@);
        let dns = seq!["dns_query"@, "query"@];
        assert(dns[0] == "dns_query"@ && dns[1] == "query"@);
        let lateral = seq!["lateral_move"@, "psexec"@, "wmiexec"@];
        assert(lateral[0] == "lateral_move"@ && lateral[1] == "psexec"@ && lateral[2] == "wmiexec"@);
    }
    if is_value(&category, "authentication") || is_any_of4(&action, "logon", "login", "user_login", "ssh_login") {
        if is_value(&outcome, "success") {
            push_unique(&mut out, AUTH_SUCCESS);
        } else {
            push_unique(&mut out, AUTH_FAILURE);
        }
    }
    if is_value(&category, "process") || is_any_of4(&action, "process_start", "process_exec", "exec", "spawn") {
        push_unique(&mut out, PROCESS_SPAWN);
    }
    if is_value(&category, "network") {
        push_unique(&mut out, NET_CONNECT);
        if is_value(&direction, "outbound") || is_value(&direction, "egress") {
            push_unique(&mut out, NETWORK_EGRESS);
        } else if is_value(&direction, "inbound") || is_value(&direction, "ingress") {
            push_unique(&mut out, NETWORK_INGRESS);
        }
    }
    if is_value(&action, "dns_query") || is_value(&action, "query") {
        push_unique(&mut out, DNS_QUERY);
    }
    if is_value(&action, "lateral_move") || is_value(&action, "psexec") || is_value(&action, "wmiexec") {
        push_unique(&mut out, LATERAL_MOVE);
    }
    out
}

/// `existing` after adding each of `new` in order, skipping signals already
/// present.
pub open spec fn add_signals_model(existing: Seq<Seq<char>>, new: Seq<Seq<char>>) -> Seq<Seq<char>>
    decreases new.len(),
{
    if new.len() == 0 {
        existing
    } else {
        push_unique_model(add_signals_model(existing, new.drop_last()), new.last())
    }
}

/// Adding a signal without duplicating keeps every signal, adds only that
/// one, and keeps a duplicate-free list duplicate-free.
pub proof fn lemma_push_unique_distinct(out: Seq<Seq<char>>, s: Seq<char>)
    ensures
        out.no_duplicates() ==> push_unique_model(out, s).no_duplicates(),
        push_unique_model(out, s).contains(s),
        forall|x: Seq<char>| out.contains(x) ==> push_unique_model(out, s).contains(x),
        forall|x: Seq<char>| #[trigger] push_unique_model(out, s).contains(x) ==> out.contains(x) || x == s,
{
    let r = push_unique_model(out, s);
    if !out.contains(s) {
        assert(r[out.len() as int] == s);
        assert forall|x: Seq<char>| out.contains(x) implies r.contains(x) by {
            let k = choose|k: int| 0 <= k < out.len() && out[k] == x;
            assert(r[k] == x);
        }
        assert forall|x: Seq<char>| #[trigger] r.contains(x) implies out.contains(x) || x == s by {
            let k = choose|k: int| 0 <= k < r.len() && r[k] == x;
            if k < out.len() {
                assert(out[k] == x);
            }
        }
        if out.no_duplicates() {
            assert forall|a: int, b: int| 0 <= a < r.len() && 0 <= b < r.len() && a != b implies r[a] != r[b] by {
                if a == out.len() {
                    assert(out.contains(out[b]));
                } else if b == out.len() {
                    assert(out.contains(out[a]));
                }
            }
        }
    }
}

/// [`add_signals_model`] keeps `existing`, contains every added signal, adds
/// nothing else, and keeps a duplicate-free list duplicate-free.
pub proof fn lemma_add_signals(existing: Seq<Seq<char>>, new: Seq<Seq<char>>)
    ensures
        existing.no_duplicates() ==> add_signals_model(existing, new).no_duplicates(),
        forall|x: Seq<char>| existing.contains(x) ==> add_signals_model(existing, new).contains(x),
        forall|x: Seq<char>| new.contains(x) ==> add_signals_model(existing, new).contains(x),
        forall|x: Seq<char>|
            #[trigger] add_signals_model(existing, new).contains(x) ==> existing.contains(x)
                || new.contains(x),
    decreases new.len(),
{
    if new.len() > 0 {
        let prev = add_signals_model(existing, new.drop_last());
        lemma_add_signals(existing, new.drop_last());
        lemma_push_unique_distinct(prev, new.last());
        assert forall|x: Seq<char>| new.contains(x) implies add_signals_model(existing, new).contains(x) by {
            let k = choose|k: int| 0 <= k < new.len() && new[k] == x;
            if k < new.len() - 1 {
                assert(new.drop_last()[k] == x);
                assert(new.drop_last().contains(x));
                assert(prev.contains(x));
            } else {
                assert(x == new.last());
            }
        }
        assert forall|x: Seq<char>| #[trigger] add_signals_model(existing, new).contains(x) implies existing.contains(x)
            || new.contains(x) by {
            if prev.contains(x) && !existing.contains(x) {
                let k = choose|k: int| 0 <= k < new.drop_last().len() && new.drop_last()[k] == x;
                assert(new[k] == x);
            }
        }
    }
}

/// Adding signals that are all present already changes nothing.
pub proof fn lemma_add_present_signals(existing: Seq<Seq<char>>, new: Seq<Seq<char>>)
    requires
        forall|x: Seq<char>| new.contains(x) ==> existing.contains(x),
    ensures
        add_signals_model(existing, new) == existing,
    decreases new.len(),
{
    if new.len() > 0 {
        assert forall|x: Seq<char>| new.drop_last().contains(x) implies existing.contains(x) by {
            let k = choose|k: int| 0 <= k < new.drop_last().len() && new.drop_last()[k] == x;
            assert(new[k] == x);
        }
        lemma_add_present_signals(existing, new.drop_last());
        assert(new.contains(new.last())) by {
            assert(new[new.len() - 1] == new.last());
        }
    }
}

/// The signals of a row are distinct.
pub proof fn law_row_signals_distinct(row: Seq<u8>)
    ensures
        ecs_security_signals_model(row).no_duplicates(),
{
    if valid_utf8(row) {
        let e = Seq::<Seq<char>>::empty();
        let t = decode_utf8(row);
        let category = string_field(t, "event.category"@);
        let action = string_field(t, "event.action"@);
        let outcome = string_field(t, "event.outcome"@);
        let direction = string_field(t, "network.direction"@);
        lemma_push_unique_distinct(e, AUTH_SUCCESS@);
        lemma_push_unique_distinct(e, AUTH_FAILURE@);
        let s1 = if category == Some("authentication"@) || is_one_of(
            action,
            seq!["logon"@, "login"@, "user_login"@, "ssh_login"@],
        ) {
            if outcome == Some("success"@) {
                push_unique_model(e, AUTH_SUCCESS@)
            } else {
                push_unique_model(e, AUTH_FAILURE@)
            }
        } else {
            e
        };
        lemma_push_unique_distinct(s1, PROCESS_SPAWN@);
        let s2 = if category == Some("process"@) || is_one_of(
            action,
            seq!["process_start"@, "process_exec"@, "exec"@, "spawn"@],
        ) {
            push_unique_model(s1, PROCESS_SPAWN@)
        } else {
            s1
        };
        lemma_push_unique_distinct(s2, NET_CONNECT@);
        let t2 = push_unique_model(s2, NET_CONNECT@);
        lemma_push_unique_distinct(t2, NETWORK_EGRESS@);
        lemma_push_unique_distinct(t2, NETWORK_INGRESS@);
        let s3 = if category == Some("network"@) {
            if is_one_of(direction, seq!["outbound"@, "egress"@]) {
                push_unique_model(t2, NETWORK_EGRESS@)
            } else if is_one_of(direction, seq!["inbound"@, "ingress"@]) {
                push_unique_model(t2, NETWORK_INGRESS@)
            } else {
                t2
            }
        } else {
            s2
        };
        lemma_push_unique_distinct(s3, DNS_QUERY@);
        let s4 = if is_one_of(action, seq!["dns_query"@, "query"@]) {
            push_unique_model(s3, DNS_QUERY@)
        } else {
            s3
        };
        lemma_push_unique_distinct(s4, LATERAL_MOVE@);
    }
}

/// The `event.category` field of a row's text.
pub open spec fn ecs_category(text: Seq<char>) -> Option<Seq<char>> {
    string_field(text, "event.category"@)
}

/// The `event.action` field of a row's text.
pub open spec fn ecs_action(text: Seq<char>) -> Option<Seq<char>> {
    string_field(text, "event.action"@)
}

/// The `event.outcome` field of a row's text.
pub open spec fn ecs_outcome(text: Seq<char>) -> Option<Seq<char>> {
    string_field(text, "event.outcome"@)
}

/// The `network.direction` field of a row's text.
pub open spec fn ecs_direction(text: Seq<char>) -> Option<Seq<char>> {
    string_field(text, "network.direction"@)
}

/// The row records an authentication: by category, or by a login action.
pub open spec fn ecs_is_auth(text: Seq<char>) -> bool {
    ||| ecs_category(text) == Some("authentication"@)
    ||| ecs_action(text) == Some("logon"@)
    ||| ecs_action(text) == Some("login"@)
    ||| ecs_action(text) == Some("user_login"@)
    ||| ecs_action(text) == Some("ssh_login"@)
}

/// The signal names an ECS row can yield, in the order rows yield them.
pub open spec fn ecs_signal_names() -> Seq<Seq<char>> {
    seq![
        AUTH_SUCCESS@,
        AUTH_FAILURE@,
        PROCESS_SPAWN@,
        NET_CONNECT@,
        NETWORK_EGRESS@,
        NETWORK_INGRESS@,
        DNS_QUERY@,
        LATERAL_MOVE@,
    ]
}

/// The signal names an ECS row can yield are distinct.
pub proof fn lemma_signal_names_distinct()
    ensures
        ecs_signal_names().no_duplicates(),
        AUTH_SUCCESS@ != AUTH_FAILURE@,
        NETWORK_EGRESS@ != NETWORK_INGRESS@,
{
    reveal_strlit("auth.success");
    reveal_strlit("auth.failure");
    reveal_strlit("process.spawn");
    reveal_strlit("net.connect");
    reveal_strlit("network.egress");
    reveal_strlit("network.ingress");
    reveal_strlit("dns.query");
    reveal_strlit("lateral.move");
    let sig = ecs_signal_names();
    assert forall|a: int, b: int| 0 <= a < 8 && 0 <= b < 8 && a != b implies sig[a] != sig[b] by {
        assert(sig[a].len() != sig[b].len() || sig[a][0] != sig[b][0] || sig[a][1] != sig[b][1] || sig[a][5]
            != sig[b][5] || sig[a][6] != sig[b][6] || sig[a][8] != sig[b][8]);
    }
    assert(sig[0] != sig[1]);
    assert(sig[4] != sig[5]);
}

/// The position of a signal name in [`ecs_signal_names`] (8 for others).
pub open spec fn ecs_signal_rank(x: Seq<char>) -> int {
    if x == AUTH_SUCCESS@ {
        0
    } else if x == AUTH_FAILURE@ {
        1
    } else if x == PROCESS_SPAWN@ {
        2
    } else if x == NET_CONNECT@ {
        3
    } else if x == NETWORK_EGRESS@ {
        4
    } else if x == NETWORK_INGRESS@ {
        5
    } else if x == DNS_QUERY@ {
        6
    } else if x == LATERAL_MOVE@ {
        7
    } else {
        8
    }
}

/// Every element of `s` ranks below `bound`, in strictly increasing rank.
pub open spec fn ranked_below(s: Seq<Seq<char>>, bound: int) -> bool {
    &&& forall|i: int| 0 <= i < s.len() ==> ecs_signal_rank(#[trigger] s[i]) < bound
    &&& forall|i: int, j: int| 0 <= i < j < s.len() ==> ecs_signal_rank(#[trigger] s[i]) < ecs_signal_rank(#[trigger] s[j])
}

/// Appending a signal that ranks above everything present keeps ranks increasing.
proof fn lemma_push_ranked(out: Seq<Seq<char>>, x: Seq<char>, bound: int)
    requires
        ranked_below(out, ecs_signal_rank(x)),
        ecs_signal_rank(x) < bound,
    ensures
        ranked_below(push_unique_model(out, x), bound),
{
    if !out.contains(x) {
        let r = out.push(x);
        assert forall|i: int, j: int| 0 <= i < j < r.len() implies ecs_signal_rank(#[trigger] r[i]) < ecs_signal_rank(#[trigger] r[j]) by {
            if j == out.len() {
                assert(ecs_signal_rank(out[i]) < ecs_signal_rank(x));
            } else {
                assert(r[i] == out[i] && r[j] == out[j]);
            }
        }
        assert forall|i: int| 0 <= i < r.len() implies ecs_signal_rank(#[trigger] r[i]) < bound by {
            if i < out.len() {
                assert(r[i] == out[i]);
            }
        }
    }
}

/// A row's signals come out in one fixed order, that of
/// [`ecs_signal_names`]: authentication, process, network connection,
/// direction, DNS, lateral movement.
pub proof fn law_ecs_signal_order(text: Seq<char>)
    ensures
        forall|i: int, j: int|
            0 <= i < j < ecs_signals_model(text).len() ==> ecs_signal_rank(#[trigger] ecs_signals_model(text)[i])
                < ecs_signal_rank(#[trigger] ecs_signals_model(text)[j]),
        forall|i: int|
            0 <= i < ecs_signals_model(text).len() ==> #[trigger] ecs_signal_names().contains(
                ecs_signals_model(text)[i],
            ),
{
    lemma_signal_names_distinct();
    let sig = ecs_signal_names();
    assert(sig[0] == AUTH_SUCCESS@ && sig[1] == AUTH_FAILURE@ && sig[2] == PROCESS_SPAWN@ && sig[3] == NET_CONNECT@
        && sig[4] == NETWORK_EGRESS@ && sig[5] == NETWORK_INGRESS@ && sig[6] == DNS_QUERY@ && sig[7] == LATERAL_MOVE@);
    assert(ecs_signal_rank(AUTH_SUCCESS@) == 0);
    assert(ecs_signal_rank(AUTH_FAILURE@) == 1) by { assert(sig[1] != sig[0]); }
    assert(ecs_signal_rank(PROCESS_SPAWN@) == 2) by { assert(sig[2] != sig[0] && sig[2] != sig[1]); }
    assert(ecs_signal_rank(NET_CONNECT@) == 3) by { assert(sig[3] != sig[0] && sig[3] != sig[1] && sig[3] != sig[2]); }
    assert(ecs_signal_rank(NETWORK_EGRESS@) == 4) by {
        assert(sig[4] != sig[0] && sig[4] != sig[1] && sig[4] != sig[2] && sig[4] != sig[3]);
    }
    assert(ecs_signal_rank(NETWORK_INGRESS@) == 5) by {
        assert(sig[5] != sig[0] && sig[5] != sig[1] && sig[5] != sig[2] && sig[5] != sig[3] && sig[5] != sig[4]);
    }
    assert(ecs_signal_rank(DNS_QUERY@) == 6) by {
        assert(sig[6] != sig[0] && sig[6] != sig[1] && sig[6] != sig[2] && sig[6] != sig[3] && sig[6] != sig[4]
            && sig[6] != sig[5]);
    }
    assert(ecs_signal_rank(LATERAL_MOVE@) == 7) by {
        assert(sig[7] != sig[0] && sig[7] != sig[1] && sig[7] != sig[2] && sig[7] != sig[3] && sig[7] != sig[4]
            && sig[7] != sig[5] && sig[7] != sig[6]);
    }
    let category = string_field(text, "event.category"@);
    let action = string_field(text, "event.action"@);
    let outcome = string_field(text, "event.outcome"@);
    let direction = string_field(text, "network.direction"@);
    let e = Seq::<Seq<char>>::empty();
    lemma_push_ranked(e, AUTH_SUCCESS@, 2);
    lemma_push_ranked(e, AUTH_FAILURE@, 2);
    let s1 = if category == Some("authentication"@) || is_one_of(
        action,
        seq!["logon"@, "login"@, "user_login"@, "ssh_login"@],
    ) {
        if outcome == Some("success"@) {
            push_unique_model(e, AUTH_SUCCESS@)
        } else {
            push_unique_model(e, AUTH_FAILURE@)
        }
    } else {
        e
    };
    assert(ranked_below(s1, 2));
    lemma_push_ranked(s1, PROCESS_SPAWN@, 3);
    let s2 = if category == Some("process"@) || is_one_of(
        action,
        seq!["process_start"@, "process_exec"@, "exec"@, "spawn"@],
    ) {
        push_unique_model(s1, PROCESS_SPAWN@)
    } else {
        s1
    };
    assert(ranked_below(s2, 3));
    lemma_push_ranked(s2, NET_CONNECT@, 4);
    let t2 = push_unique_model(s2, NET_CONNECT@);
    lemma_push_ranked(t2, NETWORK_EGRESS@, 6);
    lemma_push_ranked(t2, NETWORK_INGRESS@, 6);
    let s3 = if category == Some("network"@) {
        if is_one_of(direction, seq!["outbound"@, "egress"@]) {
            push_unique_model(t2, NETWORK_EGRESS@)
        } else if is_one_of(direction, seq!["inbound"@, "ingress"@]) {
            push_unique_model(t2, NETWORK_INGRESS@)
        } else {
            t2
        }
    } else {
        s2
    };
    assert(ranked_below(s3, 6));
    lemma_push_ranked(s3, DNS_QUERY@, 7);
    let s4 = if is_one_of(action, seq!["dns_query"@, "query"@]) {
        push_unique_model(s3, DNS_QUERY@)
    } else {
        s3
    };
    assert(ranked_below(s4, 7));
    lemma_push_ranked(s4, LATERAL_MOVE@, 8);
    let s5 = if is_one_of(action, seq!["lateral_move"@, "psexec"@, "wmiexec"@]) {
        push_unique_model(s4, LATERAL_MOVE@)
    } else {
        s4
    };
    assert(ranked_below(s5, 8));
    assert(ecs_signals_model(text) == s5);
    assert forall|i: int| 0 <= i < s5.len() implies #[trigger] sig.contains(s5[i]) by {
        let r = ecs_signal_rank(s5[i]);
        assert(0 <= r < 8);
        assert(sig[r] == s5[i]);
    }
}

/// Which signals a row's text yields, each by the fields that call for it:
/// `auth.success` or `auth.failure` (by outcome) for an authentication;
/// `process.spawn` for a process category or a start/exec/spawn action;
/// `net.connect` for the network category, with `network.egress` for an
/// outbound/egress direction and `network.ingress` for an inbound/ingress
/// one (never both); `dns.query` for a DNS query action; `lateral.move` for
/// a lateral-movement action; and no other signal.
pub proof fn law_ecs_signal_membership(text: Seq<char>)
    ensures
        ecs_signals_model(text).contains(AUTH_SUCCESS@) <==> (ecs_is_auth(text) && ecs_outcome(text) == Some(
            "success"@,
        )),
        ecs_signals_model(text).contains(AUTH_FAILURE@) <==> (ecs_is_auth(text) && ecs_outcome(text) != Some(
            "success"@,
        )),
        ecs_signals_model(text).contains(PROCESS_SPAWN@) <==> (ecs_category(text) == Some("process"@)
            || ecs_action(text) == Some("process_start"@) || ecs_action(text) == Some("process_exec"@)
            || ecs_action(text) == Some("exec"@) || ecs_action(text) == Some("spawn"@)),
        ecs_signals_model(text).contains(NET_CONNECT@) <==> ecs_category(text) == Some("network"@),
        ecs_signals_model(text).contains(NETWORK_EGRESS@) <==> (ecs_category(text) == Some("network"@) && (
        ecs_direction(text) == Some("outbound"@) || ecs_direction(text) == Some("egress"@))),
        ecs_signals_model(text).contains(NETWORK_INGRESS@) <==> (ecs_category(text) == Some("network"@) && (
        ecs_direction(text) == Some("inbound"@) || ecs_direction(text) == Some("ingress"@))),
        ecs_signals_model(text).contains(DNS_QUERY@) <==> (ecs_action(text) == Some("dns_query"@) || ecs_action(
            text,
        ) == Some("query"@)),
        ecs_signals_model(text).contains(LATERAL_MOVE@) <==> (ecs_action(text) == Some("lateral_move"@)
            || ecs_action(text) == Some("psexec"@) || ecs_action(text) == Some("wmiexec"@)),
        forall|x: Seq<char>|
            #[trigger] ecs_signals_model(text).contains(x) ==> x == AUTH_SUCCESS@ || x == AUTH_FAILURE@ || x
                == PROCESS_SPAWN@ || x == NET_CONNECT@ || x == NETWORK_EGRESS@ || x == NETWORK_INGRESS@ || x
                == DNS_QUERY@ || x == LATERAL_MOVE@,
{
    reveal_strlit("auth.success");
    reveal_strlit("auth.failure");
    reveal_strlit("process.spawn");
    reveal_strlit("net.connect");
    reveal_strlit("network.egress");
    reveal_strlit("network.ingress");
    reveal_strlit("dns.query");
    reveal_strlit("lateral.move");
    reveal_strlit("outbound");
    reveal_strlit("egress");
    reveal_strlit("inbound");
    reveal_strlit("ingress");
    lemma_signal_names_distinct();
    assert("outbound"@ != "inbound"@ && "outbound"@ != "ingress"@ && "egress"@ != "inbound"@ && "egress"@
        != "ingress"@) by {
        assert("outbound"@[0] != "inbound"@[0]);
        assert("outbound"@[0] != "ingress"@[0]);
        assert("egress"@[0] != "inbound"@[0]);
        assert("egress"@[0] != "ingress"@[0]);
    }
    let category = ecs_category(text);
    let action = ecs_action(text);
    let outcome = ecs_outcome(text);
    let direction = ecs_direction(text);
    let logins = seq!["logon"@, "login"@, "user_login"@, "ssh_login"@];
    assert(logins[0] == "logon"@ && logins[1] == "login"@ && logins[2] == "user_login"@ && logins[3] == "ssh_login"@);
    let spawns = seq!["process_start"@, "process_exec"@, "exec"@, "spawn"@];
    assert(spawns[0] == "process_start"@ && spawns[1] == "process_exec"@ && spawns[2] == "exec"@ && spawns[3] == "spawn"@);
    let outs = seq!["outbound"@, "egress"@];
    assert(outs[0] == "outbound"@ && outs[1] == "egress"@);
    let ins = seq!["inbound"@, "ingress"@];
    assert(ins[0] == "inbound"@ && ins[1] == "ingress"@);
    let dns = seq!["dns_query"@, "query"@];
    assert(dns[0] == "dns_query"@ && dns[1] == "query"@);
    let lateral = seq!["lateral_move"@, "psexec"@, "wmiexec"@];
    assert(lateral[0] == "lateral_move"@ && lateral[1] == "psexec"@ && lateral[2] == "wmiexec"@);
    assert(is_one_of(action, logins) <==> (action == Some("logon"@) || action == Some("login"@) || action == Some(
        "user_login"@,
    ) || action == Some("ssh_login"@)));
    assert(is_one_of(action, spawns) <==> (action == Some("process_start"@) || action == Some("process_exec"@)
        || action == Some("exec"@) || action == Some("spawn"@)));
    assert(is_one_of(direction, outs) <==> (direction == Some("outbound"@) || direction == Some("egress"@)));
    assert(is_one_of(direction, ins) <==> (direction == Some("inbound"@) || direction == Some("ingress"@)));
    assert(is_one_of(action, dns) <==> (action == Some("dns_query"@) || action == Some("query"@)));
    assert(is_one_of(action, lateral) <==> (action == Some("lateral_move"@) || action == Some("psexec"@)
        || action == Some("wmiexec"@)));
    assert(!(is_one_of(direction, outs) && is_one_of(direction, ins)));
    let e = Seq::<Seq<char>>::empty();
    lemma_push_unique_distinct(e, AUTH_SUCCESS@);
    lemma_push_unique_distinct(e, AUTH_FAILURE@);
    let s1 = if category == Some("authentication"@) || is_one_of(action, logins) {
        if outcome == Some("success"@) {
            push_unique_model(e, AUTH_SUCCESS@)
        } else {
            push_unique_model(e, AUTH_FAILURE@)
        }
    } else {
        e
    };
    lemma_push_unique_distinct(s1, PROCESS_SPAWN@);
    let s2 = if category == Some("process"@) || is_one_of(action, spawns) {
        push_unique_model(s1, PROCESS_SPAWN@)
    } else {
        s1
    };
    lemma_push_unique_distinct(s2, NET_CONNECT@);
    let t2 = push_unique_model(s2, NET_CONNECT@);
    lemma_push_unique_distinct(t2, NETWORK_EGRESS@);
    lemma_push_unique_distinct(t2, NETWORK_INGRESS@);
    let s3 = if category == Some("network"@) {
        if is_one_of(direction, outs) {
            push_unique_model(t2, NETWORK_EGRESS@)
        } else if is_one_of(direction, ins) {
            push_unique_model(t2, NETWORK_INGRESS@)
        } else {
            t2
        }
    } else {
        s2
    };
    lemma_push_unique_distinct(s3, DNS_QUERY@);
    let s4 = if is_one_of(action, dns) {
        push_unique_model(s3, DNS_QUERY@)
    } else {
        s3
    };
    lemma_push_unique_distinct(s4, LATERAL_MOVE@);
    let s5 = if is_one_of(action, lateral) {
        push_unique_model(s4, LATERAL_MOVE@)
    } else {
        s4
    };
    assert(ecs_signals_model(text) == s5);
    assert(!e.contains(AUTH_SUCCESS@) && !e.contains(AUTH_FAILURE@));
}

/// Adding the signals of a row is idempotent: adding them a second time
/// changes nothing. Adding them keeps every signal already present, and a
/// duplicate-free signal list stays duplicate-free.
pub proof fn law_add_signals_idempotent(existing: Seq<Seq<char>>, row: Seq<u8>)
    ensures
        add_signals_model(
            add_signals_model(existing, ecs_security_signals_model(row)),
            ecs_security_signals_model(row),
        ) == add_signals_model(existing, ecs_security_signals_model(row)),
        forall|x: Seq<char>|
            existing.contains(x) ==> add_signals_model(existing, ecs_security_signals_model(row)).contains(x),
        existing.no_duplicates() ==> add_signals_model(existing, ecs_security_signals_model(row)).no_duplicates(),
{
    let new = ecs_security_signals_model(row);
    lemma_add_signals(existing, new);
    lemma_add_present_signals(add_signals_model(existing, new), new);
}

/// The signals of `new` that `existing` does not hold, in order.
pub open spec fn missing_signals(existing: Seq<Seq<char>>, new: Seq<Seq<char>>) -> Seq<Seq<char>> {
    new.filter(|s: Seq<char>| !existing.contains(s))
}

/// Adding distinct signals appends, in order, those not already present.
pub proof fn lemma_add_signals_appends(existing: Seq<Seq<char>>, new: Seq<Seq<char>>)
    requires
        new.no_duplicates(),
    ensures
        add_signals_model(existing, new) == existing + missing_signals(existing, new),
    decreases new.len(),
{
    let pred = |s: Seq<char>| !existing.contains(s);
    if new.len() == 0 {
        assert(new.filter(pred) =~= Seq::<Seq<char>>::empty()) by {
            reveal(Seq::filter);
        }
        assert(existing + Seq::<Seq<char>>::empty() =~= existing);
    } else {
        let dl = new.drop_last();
        let last = new.last();
        assert forall|a: int, b: int| 0 <= a < dl.len() && 0 <= b < dl.len() && a != b implies dl[a] != dl[b] by {
            assert(new[a] != new[b]);
        }
        lemma_add_signals_appends(existing, dl);
        assert(new =~= dl.push(last));
        dl.lemma_filter_push(last, pred);
        let prev = existing + dl.filter(pred);
        assert(!dl.contains(last)) by {
            if dl.contains(last) {
                let k = choose|k: int| 0 <= k < dl.len() && dl[k] == last;
                assert(new[k] == new[new.len() - 1]);
            }
        }
        assert(prev.contains(last) <==> existing.contains(last)) by {
            if prev.contains(last) && !existing.contains(last) {
                let k = choose|k: int| 0 <= k < prev.len() && prev[k] == last;
                assert(dl.filter(pred)[k - existing.len()] == last);
                assert(dl.filter(pred).contains(last));
                dl.lemma_filter_contains_rev(pred, last);
            }
            if existing.contains(last) {
                let k = choose|k: int| 0 <= k < existing.len() && existing[k] == last;
                assert(prev[k] == last);
            }
        }
        if !existing.contains(last) {
            assert(prev.push(last) =~= existing + dl.filter(pred).push(last));
        }
    }
}

/// Add the security signals of one ECS-shaped row to `signals`, skipping
/// those already present.
pub fn add_ecs_security_signals(signals: &mut Vec<String>, row: &[u8])
    ensures
        final(signals)@.map_values(|s: String| s@) == add_signals_model(
            old(signals)@.map_values(|s: String| s@),
            ecs_security_signals_model(row@),
        ),
        final(signals)@.map_values(|s: String| s@) == old(signals)@.map_values(|s: String| s@)
            + missing_signals(old(signals)@.map_values(|s: String| s@), ecs_security_signals_model(row@)),
{
    proof {
        law_row_signals_distinct(row@);
        lemma_add_signals_appends(old(signals)@.map_values(|s: String| s@), ecs_security_signals_model(row@));
    }
    let found = ecs_security_signals(row);
    let ghost start = signals@.map_values(|s: String| s@);
    let ghost new = found@.map_values(|s: &str| s@);
    let mut i: usize = 0;
    while i < found.len()
        invariant
            i <= found@.len(),
            new == found@.map_values(|s: &str| s@),
            signals@.map_values(|s: String| s@) == add_signals_model(start, new.take(i as int)),
        decreases found.len() - i,
    {
        let signal = found[i];
        let ghost before = signals@.map_values(|s: String| s@);
        let mut present = false;
        let mut j: usize = 0;
        while j < signals.len()
            invariant
                j <= signals@.len(),
                before == signals@.map_values(|s: String| s@),
                !present ==> forall|k: int| 0 <= k < j ==> signals@[k]@ != signal@,
                present ==> before.contains(signal@),
            decreases signals.len() - j,
        {
            if str_equal(signals[j].as_str(), signal) {
                present = true;
                proof {
                    assert(before[j as int] == signal@);
                }
            }
            j = j + 1;
        }
        proof {
            assert(new.take(i + 1).drop_last() =~= new.take(i as int));
            assert(new.take(i + 1).last() == signal@);
            if !present {
                assert(!before.contains(signal@)) by {
                    if before.contains(signal@) {
                        let k = choose|k: int| 0 <= k < before.len() && before[k] == signal@;
                        assert(signals@[k]@ == signal@);
                    }
                }
            }
        }
        if !present {
            signals.push(signal.to_owned());
            proof {
                assert(signals@.map_values(|s: String| s@) =~= before.push(signal@));
            }
        }
        i = i + 1;
    }
    proof {
        assert(new.take(found@.len() as int) =~= new);
    }
}

} // verus!
