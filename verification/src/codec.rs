//! The persisted form of the host-profile cache: one JSON object, keys the
//! user ids, values the four fields of the fact sheet, timestamps as
//! ISO-8601 text with second precision.
//!
//! Both directions are written here and verified against one spec-level
//! grammar, so reloading what was stored gives back the same entries.

use vstd::prelude::*;
use vstd::string::{StrSliceExecFns, StringExecFns};
use crate::cache::{entry_views, unique_keys, AbridgedUser, UserCache};
use crate::numfmt::{
    append_pad2,
    append_pad4,
    dec_val,
    digit_value,
    is_digit,
    lemma_pad2_val,
    lemma_pad4_val,
    pad2,
    pad4,
};
use crate::time::Timestamp;

verus! {

/// A timestamp as ISO-8601 text with second precision and the UTC marker.
pub open spec fn ts_str(t: Timestamp) -> Seq<char> {
    pad4(t.year as int) + seq!['-'] + pad2(t.month as int) + seq!['-'] + pad2(t.day as int)
        + seq!['T'] + pad2(t.hour as int) + seq![':'] + pad2(t.minute as int) + seq![':'] + pad2(
        t.second as int,
    ) + seq!['Z']
}

pub open spec fn bool_str(b: bool) -> Seq<char> {
    if b {
        "true"@
    } else {
        "false"@
    }
}

/// One character of a key escaped for a JSON string: quotes and backslashes
/// get a backslash, everything else passes through.
pub open spec fn esc_char(c: char) -> Seq<char> {
    if c == '"' {
        seq!['\\', '"']
    } else if c == '\\' {
        seq!['\\', '\\']
    } else {
        seq![c]
    }
}

pub open spec fn esc(s: Seq<char>) -> Seq<char>
    decreases s.len(),
{
    if s.len() == 0 {
        Seq::empty()
    } else {
        esc_char(s[0]) + esc(s.drop_first())
    }
}

/// Escaping one more character appends its escape.
pub proof fn lemma_esc_push(s: Seq<char>, c: char)
    ensures
        esc(s.push(c)) == esc(s) + esc_char(c),
    decreases s.len(),
{
    assert(s.push(c)[0 as int] == if s.len() == 0 {
        c
    } else {
        s[0]
    });
    if s.len() == 0 {
        assert(s.push(c).drop_first() =~= Seq::<char>::empty());
        assert(esc(Seq::<char>::empty()) =~= Seq::<char>::empty());
        assert(esc(s.push(c)) =~= esc(s) + esc_char(c));
    } else {
        assert(s.push(c).drop_first() =~= s.drop_first().push(c));
        lemma_esc_push(s.drop_first(), c);
        assert(esc(s.push(c)) =~= esc(s) + esc_char(c));
    }
}

/// One stored entry, fields in fixed order.
pub open spec fn entry_str(u: AbridgedUser) -> Seq<char> {
    "{\"registrationDate\":\""@ + ts_str(u.registration_date) + "\",\"isPatron\":"@ + bool_str(
        u.is_patron,
    ) + ",\"isMentor\":"@ + bool_str(u.is_mentor) + ",\"cacheTime\":\""@ + ts_str(u.cache_time)
        + "\"}"@
}

/// One key/entry pair.
pub open spec fn pair_str(p: (Seq<char>, AbridgedUser)) -> Seq<char> {
    seq!['"'] + esc(p.0) + seq!['"', ':'] + entry_str(p.1)
}

/// The pairs joined by commas.
pub open spec fn pairs_str(s: Seq<(Seq<char>, AbridgedUser)>) -> Seq<char>
    decreases s.len(),
{
    if s.len() == 0 {
        Seq::empty()
    } else if s.len() == 1 {
        pair_str(s[0])
    } else {
        pair_str(s[0]) + seq![','] + pairs_str(s.drop_first())
    }
}

/// Appending one more pair extends the comma-joined run.
pub proof fn lemma_pairs_str_snoc(s: Seq<(Seq<char>, AbridgedUser)>, p: (Seq<char>, AbridgedUser))
    requires
        s.len() >= 1,
    ensures
        pairs_str(s.push(p)) == pairs_str(s) + seq![','] + pair_str(p),
    decreases s.len(),
{
    if s.len() == 1 {
        assert(s.push(p)[0] == s[0]);
        assert(s.push(p).drop_first() =~= seq![p]);
        assert(pairs_str(seq![p]) == pair_str(p));
        assert(pairs_str(s.push(p)) =~= pairs_str(s) + seq![','] + pair_str(p));
    } else {
        assert(s.push(p).drop_first() =~= s.drop_first().push(p));
        lemma_pairs_str_snoc(s.drop_first(), p);
        assert(s.push(p)[0] == s[0]);
        assert(pairs_str(s.push(p)) =~= pairs_str(s) + seq![','] + pair_str(p));
    }
}

/// The whole persisted file.
pub open spec fn cache_json(s: Seq<(Seq<char>, AbridgedUser)>) -> Seq<char> {
    seq!['{'] + pairs_str(s) + seq!['}']
}

/// Appends the ISO-8601 rendering of `t`.
pub fn append_ts(out: &mut String, t: &Timestamp)
    requires
        t.wf(),
    ensures
        final(out)@ == old(out)@ + ts_str(*t),
{
    proof {
        reveal_strlit("-");
        reveal_strlit("T");
        reveal_strlit(":");
        reveal_strlit("Z");
    }
    append_pad4(out, t.year as u64);
    out.append("-");
    append_pad2(out, t.month as u64);
    out.append("-");
    append_pad2(out, t.day as u64);
    out.append("T");
    append_pad2(out, t.hour as u64);
    out.append(":");
    append_pad2(out, t.minute as u64);
    out.append(":");
    append_pad2(out, t.second as u64);
    out.append("Z");
    proof {
        assert(final(out)@ =~= old(out)@ + ts_str(*t));
    }
}

/// A timestamp rendered alone in the ISO-8601 second-precision form (also the
/// body of the single-user registration lookup).
pub fn format_rfc3339_secs(t: &Timestamp) -> (r: String)
    requires
        t.wf(),
    ensures
        r@ == ts_str(*t),
{
    let mut out = String::new();
    append_ts(&mut out, t);
    proof {
        assert(out@ =~= ts_str(*t));
    }
    out
}

fn append_bool(out: &mut String, b: bool)
    ensures
        final(out)@ == old(out)@ + bool_str(b),
{
    if b {
        out.append("true");
    } else {
        out.append("false");
    }
}

/// Appends the key text with quotes and backslashes escaped.
#[verifier::loop_isolation(false)]
fn append_escaped(out: &mut String, s: &str)
    ensures
        final(out)@ == old(out)@ + esc(s@),
{
    let n = s.unicode_len();
    let mut i: usize = 0;
    proof {
        assert(s@.subrange(0, 0) =~= Seq::<char>::empty());
        assert(out@ =~= old(out)@ + esc(s@.subrange(0, 0)));
    }
    while i < n
        invariant
            i <= n,
            out@ == old(out)@ + esc(s@.subrange(0, i as int)),
        decreases n - i,
    {
        let c = s.get_char(i);
        if c == '"' {
            proof {
                reveal_strlit("\\\"");
            }
            out.append("\\\"");
        } else if c == '\\' {
            proof {
                reveal_strlit("\\\\");
            }
            out.append("\\\\");
        } else {
            let piece = s.substring_char(i, i + 1);
            proof {
                assert(piece@ =~= seq![s@[i as int]]);
            }
            out.append(piece);
        }
        proof {
            lemma_esc_push(s@.subrange(0, i as int), s@[i as int]);
            assert(s@.subrange(0, i as int).push(s@[i as int]) =~= s@.subrange(0, i + 1 as int));
            assert(out@ =~= old(out)@ + esc(s@.subrange(0, i + 1 as int)));
        }
        i = i + 1;
    }
    proof {
        assert(s@.subrange(0, n as int) =~= s@);
    }
}

fn append_entry(out: &mut String, u: &AbridgedUser)
    requires
        u.wf(),
    ensures
        final(out)@ == old(out)@ + entry_str(*u),
{
    out.append("{\"registrationDate\":\"");
    append_ts(out, &u.registration_date);
    out.append("\",\"isPatron\":");
    append_bool(out, u.is_patron);
    out.append(",\"isMentor\":");
    append_bool(out, u.is_mentor);
    out.append(",\"cacheTime\":\"");
    append_ts(out, &u.cache_time);
    out.append("\"}");
    proof {
        assert(final(out)@ =~= old(out)@ + entry_str(*u));
    }
}

fn append_pair(out: &mut String, key: &String, u: &AbridgedUser)
    requires
        u.wf(),
    ensures
        final(out)@ == old(out)@ + pair_str((key@, *u)),
{
    proof {
        reveal_strlit("\"");
        reveal_strlit("\":");
    }
    out.append("\"");
    append_escaped(out, key.as_str());
    out.append("\":");
    append_entry(out, u);
    proof {
        assert(final(out)@ =~= old(out)@ + pair_str((key@, *u)));
    }
}

/// Renders the whole cache in its persisted form.
#[verifier::loop_isolation(false)]
pub fn serialize_cache(cache: &UserCache) -> (r: String)
    requires
        cache.wf(),
    ensures
        r@ == cache_json(cache.entries_view()),
{
    proof {
        reveal_strlit("{");
        reveal_strlit("}");
    }
    let mut out = String::new();
    out.append("{");
    let n = cache.entries.len();
    let mut i: usize = 0;
    proof {
        assert(cache.entries_view().subrange(0, 0) =~= Seq::<(Seq<char>, AbridgedUser)>::empty());
        assert(out@ =~= seq!['{'] + pairs_str(cache.entries_view().subrange(0, 0)));
    }
    while i < n
        invariant
            i <= n,
            n == cache.entries_view().len(),
            cache.wf(),
            out@ == seq!['{'] + pairs_str(cache.entries_view().subrange(0, i as int)),
        decreases n - i,
    {
        if i > 0 {
            out.append(",");
            proof {
                reveal_strlit(",");
            }
        }
        let p = &cache.entries[i];
        proof {
            assert(cache.entries_view()[i as int] == (p.0@, p.1));
            assert(cache.entries_view()[i as int].1.wf());
        }
        append_pair(&mut out, &p.0, &p.1);
        proof {
            let ev = cache.entries_view();
            let pre = ev.subrange(0, i as int);
            let cur = ev.subrange(0, i + 1 as int);
            if i == 0 {
                assert(cur =~= seq![ev[0]]);
                assert(pairs_str(cur) == pair_str(ev[0]));
                assert(out@ =~= seq!['{'] + pairs_str(cur));
            } else {
                assert(pre.push(ev[i as int]) =~= cur);
                lemma_pairs_str_snoc(pre, ev[i as int]);
                assert(out@ =~= seq!['{'] + pairs_str(cur));
            }
        }
        i = i + 1;
    }
    out.append("}");
    proof {
        assert(cache.entries_view().subrange(0, n as int) =~= cache.entries_view());
        assert(out@ =~= cache_json(cache.entries_view()));
    }
    out
}

/// Whether `lit` stands in `input` at `pos`.
pub open spec fn lit_at(input: Seq<char>, pos: int, lit: Seq<char>) -> bool {
    0 <= pos && pos + lit.len() <= input.len() && input.subrange(pos, pos + lit.len()) == lit
}

pub open spec fn d2_at(input: Seq<char>, pos: int) -> bool {
    is_digit(input[pos]) && is_digit(input[pos + 1])
}

pub open spec fn d2_val(input: Seq<char>, pos: int) -> int {
    dec_val(input[pos]) * 10 + dec_val(input[pos + 1])
}

pub open spec fn d4_at(input: Seq<char>, pos: int) -> bool {
    is_digit(input[pos]) && is_digit(input[pos + 1]) && is_digit(input[pos + 2]) && is_digit(
        input[pos + 3],
    )
}

pub open spec fn d4_val(input: Seq<char>, pos: int) -> int {
    dec_val(input[pos]) * 1000 + dec_val(input[pos + 1]) * 100 + dec_val(input[pos + 2]) * 10
        + dec_val(input[pos + 3])
}

/// A timestamp read at `pos`: twenty fixed characters, fields range-checked.
pub open spec fn ts_at(input: Seq<char>, pos: int) -> Option<Timestamp> {
    if 0 <= pos && pos + 20 <= input.len() && d4_at(input, pos) && input[pos + 4] == '-' && d2_at(
        input,
        pos + 5,
    ) && input[pos + 7] == '-' && d2_at(input, pos + 8) && input[pos + 10] == 'T' && d2_at(
        input,
        pos + 11,
    ) && input[pos + 13] == ':' && d2_at(input, pos + 14) && input[pos + 16] == ':' && d2_at(
        input,
        pos + 17,
    ) && input[pos + 19] == 'Z' {
        let y = d4_val(input, pos);
        let mo = d2_val(input, pos + 5);
        let d = d2_val(input, pos + 8);
        let h = d2_val(input, pos + 11);
        let mi = d2_val(input, pos + 14);
        let se = d2_val(input, pos + 17);
        if 1 <= mo <= 12 && 1 <= d <= 31 && h <= 23 && mi <= 59 && se <= 59 {
            Some(
                Timestamp {
                    year: y as u16,
                    month: mo as u8,
                    day: d as u8,
                    hour: h as u8,
                    minute: mi as u8,
                    second: se as u8,
                },
            )
        } else {
            None
        }
    } else {
        None
    }
}

/// A boolean read at `pos`.
pub open spec fn bool_at(input: Seq<char>, pos: int) -> Option<(bool, int)> {
    if lit_at(input, pos, "true"@) {
        Some((true, pos + "true"@.len()))
    } else if lit_at(input, pos, "false"@) {
        Some((false, pos + "false"@.len()))
    } else {
        None
    }
}

/// String content read from after the opening quote up to the closing quote,
/// escapes resolved.
pub open spec fn unesc_at(input: Seq<char>, pos: int) -> Option<(Seq<char>, int)>
    decreases input.len() - pos,
    when 0 <= pos <= input.len()
{
    if pos >= input.len() {
        None
    } else if input[pos] == '"' {
        Some((Seq::empty(), pos + 1))
    } else if input[pos] == '\\' {
        if pos + 1 < input.len() && (input[pos + 1] == '"' || input[pos + 1] == '\\') {
            match unesc_at(input, pos + 2) {
                Some((t, e)) => Some((seq![input[pos + 1]] + t, e)),
                None => None,
            }
        } else {
            None
        }
    } else {
        match unesc_at(input, pos + 1) {
            Some((t, e)) => Some((seq![input[pos]] + t, e)),
            None => None,
        }
    }
}

/// A quoted key read at `pos`.
pub open spec fn key_at(input: Seq<char>, pos: int) -> Option<(Seq<char>, int)> {
    if 0 <= pos < input.len() && input[pos] == '"' {
        unesc_at(input, pos + 1)
    } else {
        None
    }
}

/// One stored entry read at `pos`, fields in fixed order.
pub open spec fn entry_at(input: Seq<char>, pos: int) -> Option<(AbridgedUser, int)> {
    let l1 = "{\"registrationDate\":\""@;
    let l2 = "\",\"isPatron\":"@;
    let l3 = ",\"isMentor\":"@;
    let l4 = ",\"cacheTime\":\""@;
    let l5 = "\"}"@;
    if lit_at(input, pos, l1) {
        match ts_at(input, pos + l1.len()) {
            Some(rd) => {
                let p2 = pos + l1.len() + 20;
                if lit_at(input, p2, l2) {
                    match bool_at(input, p2 + l2.len()) {
                        Some((pat, p4)) => {
                            if lit_at(input, p4, l3) {
                                match bool_at(input, p4 + l3.len()) {
                                    Some((men, p6)) => {
                                        if lit_at(input, p6, l4) {
                                            match ts_at(input, p6 + l4.len()) {
                                                Some(ct) => {
                                                    let p8 = p6 + l4.len() + 20;
                                                    if lit_at(input, p8, l5) {
                                                        Some(
                                                            (
                                                                AbridgedUser {
                                                                    registration_date: rd,
                                                                    is_patron: pat,
                                                                    is_mentor: men,
                                                                    cache_time: ct,
                                                                },
                                                                p8 + l5.len(),
                                                            ),
                                                        )
                                                    } else {
                                                        None
                                                    }
                                                },
                                                None => None,
                                            }
                                        } else {
                                            None
                                        }
                                    },
                                    None => None,
                                }
                            } else {
                                None
                            }
                        },
                        None => None,
                    }
                } else {
                    None
                }
            },
            None => None,
        }
    } else {
        None
    }
}

/// One key/entry pair read at `pos`.
pub open spec fn pair_at(input: Seq<char>, pos: int) -> Option<((Seq<char>, AbridgedUser), int)> {
    match key_at(input, pos) {
        Some((k, p)) => {
            if 0 <= p < input.len() && input[p] == ':' {
                match entry_at(input, p + 1) {
                    Some((u, e)) => Some((((k, u), e))),
                    None => None,
                }
            } else {
                None
            }
        },
        None => None,
    }
}

/// Comma-separated pairs read from `pos`; a pair that would not advance the
/// position is rejected outright (it cannot arise from real text).
pub open spec fn pairs_at(input: Seq<char>, pos: int) -> Option<
    (Seq<(Seq<char>, AbridgedUser)>, int),
>
    decreases input.len() - pos,
    when 0 <= pos <= input.len()
{
    match pair_at(input, pos) {
        Some((p, q)) => {
            if q < input.len() && input[q] == ',' {
                if pos < q + 1 {
                    match pairs_at(input, q + 1) {
                        Some((rest, e)) => Some((seq![p] + rest, e)),
                        None => None,
                    }
                } else {
                    None
                }
            } else {
                Some((seq![p], q))
            }
        },
        None => None,
    }
}

/// The whole persisted file read back: the object braces, the pairs, the end
/// of the text, and no key twice.
pub open spec fn parse_cache_spec(input: Seq<char>) -> Option<Seq<(Seq<char>, AbridgedUser)>> {
    if input.len() == 2 && input[0] == '{' && input[1] == '}' {
        Some(Seq::empty())
    } else if input.len() >= 2 && input[0] == '{' {
        match pairs_at(input, 1) {
            Some((ps, e)) => {
                if e == input.len() - 1 && input[e] == '}' && unique_keys(ps) {
                    Some(ps)
                } else {
                    None
                }
            },
            None => None,
        }
    } else {
        None
    }
}

/// Reads `lit` at `pos`, character by character.
#[verifier::loop_isolation(false)]
fn parse_lit(s: &str, pos: usize, lit: &str) -> (r: Option<usize>)
    ensures
        match r {
            Some(p) => lit_at(s@, pos as int, lit@) && p == pos + lit@.len(),
            None => !lit_at(s@, pos as int, lit@),
        },
{
    let n = s.unicode_len();
    let m = lit.unicode_len();
    if pos > n || m > n - pos {
        return None;
    }
    let mut i: usize = 0;
    while i < m
        invariant
            i <= m,
            forall|j: int| 0 <= j < i ==> s@[pos + j] == lit@[j],
        decreases m - i,
    {
        if s.get_char(pos + i) != lit.get_char(i) {
            proof {
                assert(s@.subrange(pos as int, pos + lit@.len())[i as int] != lit@[i as int]);
            }
            return None;
        }
        i = i + 1;
    }
    proof {
        assert(s@.subrange(pos as int, pos + lit@.len()) =~= lit@);
    }
    Some(pos + m)
}

/// Reads a timestamp at `pos`, as `ts_at` says.
fn parse_ts(s: &str, pos: usize) -> (r: Option<(Timestamp, usize)>)
    ensures
        match r {
            Some((t, p)) => ts_at(s@, pos as int) == Some(t) && p == pos + 20 && t.wf(),
            None => ts_at(s@, pos as int) is None,
        },
{
    let n = s.unicode_len();
    if pos > n || n - pos < 20 {
        return None;
    }
    let y0 = match digit_value(s.get_char(pos)) {
        Some(d) => d,
        None => {
            return None;
        },
    };
    let y1 = match digit_value(s.get_char(pos + 1)) {
        Some(d) => d,
        None => {
            return None;
        },
    };
    let y2 = match digit_value(s.get_char(pos + 2)) {
        Some(d) => d,
        None => {
            return None;
        },
    };
    let y3 = match digit_value(s.get_char(pos + 3)) {
        Some(d) => d,
        None => {
            return None;
        },
    };
    if s.get_char(pos + 4) != '-' {
        return None;
    }
    let mo0 = match digit_value(s.get_char(pos + 5)) {
        Some(d) => d,
        None => {
            return None;
        },
    };
    let mo1 = match digit_value(s.get_char(pos + 6)) {
        Some(d) => d,
        None => {
            return None;
        },
    };
    if s.get_char(pos + 7) != '-' {
        return None;
    }
    let d0 = match digit_value(s.get_char(pos + 8)) {
        Some(d) => d,
        None => {
            return None;
        },
    };
    let d1 = match digit_value(s.get_char(pos + 9)) {
        Some(d) => d,
        None => {
            return None;
        },
    };
    if s.get_char(pos + 10) != 'T' {
        return None;
    }
    let h0 = match digit_value(s.get_char(pos + 11)) {
        Some(d) => d,
        None => {
            return None;
        },
    };
    let h1 = match digit_value(s.get_char(pos + 12)) {
        Some(d) => d,
        None => {
            return None;
        },
    };
    if s.get_char(pos + 13) != ':' {
        return None;
    }
    let mi0 = match digit_value(s.get_char(pos + 14)) {
        Some(d) => d,
        None => {
            return None;
        },
    };
    let mi1 = match digit_value(s.get_char(pos + 15)) {
        Some(d) => d,
        None => {
            return None;
        },
    };
    if s.get_char(pos + 16) != ':' {
        return None;
    }
    let s0 = match digit_value(s.get_char(pos + 17)) {
        Some(d) => d,
        None => {
            return None;
        },
    };
    let s1 = match digit_value(s.get_char(pos + 18)) {
        Some(d) => d,
        None => {
            return None;
        },
    };
    if s.get_char(pos + 19) != 'Z' {
        return None;
    }
    let year: u16 = (y0 as u16) * 1000 + (y1 as u16) * 100 + (y2 as u16) * 10 + (y3 as u16);
    let month: u8 = mo0 * 10 + mo1;
    let day: u8 = d0 * 10 + d1;
    let hour: u8 = h0 * 10 + h1;
    let minute: u8 = mi0 * 10 + mi1;
    let second: u8 = s0 * 10 + s1;
    if month < 1 || month > 12 || day < 1 || day > 31 || hour > 23 || minute > 59 || second > 59 {
        return None;
    }
    let t = Timestamp { year, month, day, hour, minute, second };
    proof {
        assert(ts_at(s@, pos as int) == Some(t));
    }
    Some((t, pos + 20))
}

/// Reads a boolean at `pos`, as `bool_at` says.
fn parse_bool(s: &str, pos: usize) -> (r: Option<(bool, usize)>)
    ensures
        match r {
            Some((b, p)) => bool_at(s@, pos as int) == Some((b, p as int)),
            None => bool_at(s@, pos as int) is None,
        },
{
    match parse_lit(s, pos, "true") {
        Some(p) => Some((true, p)),
        None => match parse_lit(s, pos, "false") {
            Some(p) => Some((false, p)),
            None => None,
        },
    }
}

/// Prefixes what a string parse returned.
pub open spec fn unesc_cons(prefix: Seq<char>, r: Option<(Seq<char>, int)>) -> Option<
    (Seq<char>, int),
> {
    match r {
        Some((t, e)) => Some((prefix + t, e)),
        None => None,
    }
}

/// Reads a quoted key at `pos`, as `key_at` says.
#[verifier::loop_isolation(false)]
fn parse_key(s: &str, pos: usize) -> (r: Option<(String, usize)>)
    ensures
        match r {
            Some((k, p)) => key_at(s@, pos as int) == Some((k@, p as int)) && pos < p <= s@.len(),
            None => key_at(s@, pos as int) is None,
        },
{
    let n = s.unicode_len();
    if pos >= n || s.get_char(pos) != '"' {
        return None;
    }
    let mut acc = String::new();
    let mut cur: usize = pos + 1;
    proof {
        assert(unesc_cons(acc@, unesc_at(s@, cur as int)) == unesc_at(s@, pos + 1 as int));
    }
    while cur < n
        invariant
            pos + 1 <= cur <= n,
            n == s@.len(),
            unesc_at(s@, pos + 1 as int) == unesc_cons(acc@, unesc_at(s@, cur as int)),
        decreases n - cur,
    {
        let c = s.get_char(cur);
        if c == '"' {
            proof {
                assert(unesc_at(s@, cur as int) == Some((Seq::<char>::empty(), cur + 1 as int)));
                assert(acc@ + Seq::<char>::empty() =~= acc@);
            }
            return Some((acc, cur + 1));
        } else if c == '\\' {
            if cur + 1 < n {
                let c2 = s.get_char(cur + 1);
                if c2 == '"' || c2 == '\\' {
                    let ghost pre = acc@;
                    let piece = s.substring_char(cur + 1, cur + 2);
                    proof {
                        assert(piece@ =~= seq![s@[cur + 1 as int]]);
                    }
                    acc.append(piece);
                    proof {
                        assert(acc@ =~= pre.push(c2));
                        match unesc_at(s@, cur + 2 as int) {
                            Some((t, e)) => {
                                assert(seq![c2] + t =~= Seq::<char>::empty().push(c2) + t);
                                assert(pre + (seq![c2] + t) =~= acc@ + t);
                            },
                            None => {},
                        }
                    }
                    cur = cur + 2;
                } else {
                    return None;
                }
            } else {
                return None;
            }
        } else {
            let ghost pre = acc@;
            let piece = s.substring_char(cur, cur + 1);
            proof {
                assert(piece@ =~= seq![s@[cur as int]]);
            }
            acc.append(piece);
            proof {
                assert(acc@ =~= pre.push(c));
                match unesc_at(s@, cur + 1 as int) {
                    Some((t, e)) => {
                        assert(pre + (seq![c] + t) =~= acc@ + t);
                    },
                    None => {},
                }
            }
            cur = cur + 1;
        }
    }
    proof {
        assert(unesc_at(s@, cur as int) is None);
    }
    None
}

/// Reads one stored entry at `pos`, as `entry_at` says.
fn parse_entry(s: &str, pos: usize) -> (r: Option<(AbridgedUser, usize)>)
    ensures
        match r {
            Some((u, p)) => entry_at(s@, pos as int) == Some((u, p as int)) && pos < p <= s@.len()
                && u.wf(),
            None => entry_at(s@, pos as int) is None,
        },
{
    let p1 = match parse_lit(s, pos, "{\"registrationDate\":\"") {
        Some(p) => p,
        None => {
            return None;
        },
    };
    let (rd, p2) = match parse_ts(s, p1) {
        Some(x) => x,
        None => {
            return None;
        },
    };
    let p3 = match parse_lit(s, p2, "\",\"isPatron\":") {
        Some(p) => p,
        None => {
            return None;
        },
    };
    let (pat, p4) = match parse_bool(s, p3) {
        Some(x) => x,
        None => {
            return None;
        },
    };
    let p5 = match parse_lit(s, p4, ",\"isMentor\":") {
        Some(p) => p,
        None => {
            return None;
        },
    };
    let (men, p6) = match parse_bool(s, p5) {
        Some(x) => x,
        None => {
            return None;
        },
    };
    let p7 = match parse_lit(s, p6, ",\"cacheTime\":\"") {
        Some(p) => p,
        None => {
            return None;
        },
    };
    let (ct, p8) = match parse_ts(s, p7) {
        Some(x) => x,
        None => {
            return None;
        },
    };
    let p9 = match parse_lit(s, p8, "\"}") {
        Some(p) => p,
        None => {
            return None;
        },
    };
    Some((AbridgedUser { registration_date: rd, is_patron: pat, is_mentor: men, cache_time: ct }, p9))
}

/// Reads one key/entry pair at `pos`, as `pair_at` says.
fn parse_pair(s: &str, pos: usize) -> (r: Option<(String, AbridgedUser, usize)>)
    ensures
        match r {
            Some((k, u, q)) => pair_at(s@, pos as int) == Some(((k@, u), q as int)) && pos < q
                <= s@.len() && u.wf(),
            None => pair_at(s@, pos as int) is None,
        },
{
    let (k, p) = match parse_key(s, pos) {
        Some(x) => x,
        None => {
            return None;
        },
    };
    let n = s.unicode_len();
    if p >= n || s.get_char(p) != ':' {
        return None;
    }
    let (u, e) = match parse_entry(s, p + 1) {
        Some(x) => x,
        None => {
            return None;
        },
    };
    Some((k, u, e))
}

/// Prefixes what a pairs parse returned.
pub open spec fn pairs_cons(
    prefix: Seq<(Seq<char>, AbridgedUser)>,
    r: Option<(Seq<(Seq<char>, AbridgedUser)>, int)>,
) -> Option<(Seq<(Seq<char>, AbridgedUser)>, int)> {
    match r {
        Some((t, e)) => Some((prefix + t, e)),
        None => None,
    }
}

/// Reads the comma-separated pairs from `pos`, as `pairs_at` says.
#[verifier::loop_isolation(false)]
fn parse_pairs(s: &str, pos: usize) -> (r: Option<(Vec<(String, AbridgedUser)>, usize)>)
    requires
        pos <= s@.len(),
    ensures
        match r {
            Some((v, p)) => pairs_at(s@, pos as int) == Some((entry_views(v@), p as int)) && p
                <= s@.len() && forall|i: int| 0 <= i < v@.len() ==> (#[trigger] v@[i]).1.wf(),
            None => pairs_at(s@, pos as int) is None,
        },
{
    let n = s.unicode_len();
    let mut acc: Vec<(String, AbridgedUser)> = Vec::new();
    let mut cur: usize = pos;
    proof {
        assert(entry_views(acc@) =~= Seq::<(Seq<char>, AbridgedUser)>::empty());
        assert(pairs_cons(entry_views(acc@), pairs_at(s@, cur as int)) == pairs_at(
            s@,
            pos as int,
        ));
    }
    loop
        invariant
            pos <= cur <= n,
            n == s@.len(),
            pairs_at(s@, pos as int) == pairs_cons(entry_views(acc@), pairs_at(s@, cur as int)),
            forall|i: int| 0 <= i < acc@.len() ==> (#[trigger] acc@[i]).1.wf(),
        decreases n - cur,
    {
        let ghost pre = entry_views(acc@);
        match parse_pair(s, cur) {
            None => {
                return None;
            },
            Some((k, u, q)) => {
                acc.push((k, u));
                proof {
                    assert(entry_views(acc@) =~= pre.push((k@, u)));
                }
                let ghost pv = (k@, u);
                if q < n && s.get_char(q) == ',' {
                    proof {
                        assert(pairs_at(s@, cur as int) == pairs_cons(
                            seq![pv],
                            pairs_at(s@, q + 1 as int),
                        ));
                        match pairs_at(s@, q + 1 as int) {
                            Some((t, e)) => {
                                assert(pre + (seq![pv] + t) =~= pre.push(pv) + t);
                            },
                            None => {},
                        }
                    }
                    cur = q + 1;
                } else {
                    proof {
                        assert(pairs_at(s@, cur as int) == Some((seq![pv], q as int)));
                        assert(pre + seq![pv] =~= pre.push(pv));
                    }
                    return Some((acc, q));
                }
            },
        }
    }
}

/// Checks that no key occurs twice, by character comparison.
#[verifier::loop_isolation(false)]
fn keys_unique(v: &Vec<(String, AbridgedUser)>) -> (r: bool)
    ensures
        r == unique_keys(entry_views(v@)),
{
    let n = v.len();
    let mut i: usize = 1;
    while i < n
        invariant
            1 <= i <= n || n == 0,
            n == v@.len(),
            forall|a: int, b: int|
                0 <= a < b < i ==> (#[trigger] entry_views(v@)[a]).0 != (#[trigger] entry_views(
                    v@,
                )[b]).0,
        decreases n - i,
    {
        let mut j: usize = 0;
        while j < i
            invariant
                j <= i < n,
                n == v@.len(),
                forall|a: int|
                    0 <= a < j ==> (#[trigger] entry_views(v@)[a]).0 != entry_views(v@)[i as int].0,
            decreases i - j,
        {
            if v[j].0.eq(&v[i].0) {
                proof {
                    assert(entry_views(v@)[j as int].0 == entry_views(v@)[i as int].0);
                }
                return false;
            }
            j = j + 1;
        }
        i = i + 1;
    }
    true
}

/// Reads the persisted cache back; anything but a well-formed file is `None`.
pub fn parse_cache(s: &str) -> (r: Option<UserCache>)
    ensures
        match r {
            Some(c) => c.wf() && parse_cache_spec(s@) == Some(c.entries_view()),
            None => parse_cache_spec(s@) is None,
        },
{
    let n = s.unicode_len();
    if n < 2 || s.get_char(0) != '{' {
        return None;
    }
    if n == 2 && s.get_char(1) == '}' {
        let c = UserCache::new();
        proof {
            assert(parse_cache_spec(s@) == Some(c.entries_view()));
        }
        return Some(c);
    }
    match parse_pairs(s, 1) {
        None => None,
        Some((v, e)) => {
            if e == n - 1 && s.get_char(e) == '}' {
                if keys_unique(&v) {
                    let c = UserCache { entries: v };
                    Some(c)
                } else {
                    None
                }
            } else {
                None
            }
        },
    }
}


/// A text that shows a concatenation shows both halves.
proof fn lemma_split_at(input: Seq<char>, pos: int, a: Seq<char>, b: Seq<char>)
    requires
        0 <= pos,
        pos + a.len() + b.len() <= input.len(),
        input.subrange(pos, pos + a.len() + b.len()) == a + b,
    ensures
        input.subrange(pos, pos + a.len()) == a,
        input.subrange(pos + a.len(), pos + a.len() + b.len()) == b,
{
    let whole = input.subrange(pos, pos + a.len() + b.len());
    assert forall|k: int| 0 <= k < a.len() implies input.subrange(pos, pos + a.len())[k] == a[k] by {
        assert(whole[k] == (a + b)[k]);
    }
    assert(input.subrange(pos, pos + a.len()) =~= a);
    assert forall|k: int| 0 <= k < b.len() implies input.subrange(
        pos + a.len(),
        pos + a.len() + b.len(),
    )[k] == b[k] by {
        assert(whole[a.len() + k] == (a + b)[a.len() + k]);
    }
    assert(input.subrange(pos + a.len(), pos + a.len() + b.len()) =~= b);
}

/// A timestamp's rendering reads back as the timestamp.
proof fn lemma_ts_at_str(t: Timestamp, input: Seq<char>, pos: int)
    requires
        t.wf(),
        0 <= pos,
        pos + 20 <= input.len(),
        input.subrange(pos, pos + 20) == ts_str(t),
    ensures
        ts_at(input, pos) == Some(t),
{
    let w = input.subrange(pos, pos + 20);
    assert forall|k: int| 0 <= k < 20 implies input[pos + k] == ts_str(t)[k] by {
        assert(w[k] == ts_str(t)[k]);
    }
    lemma_pad4_val(t.year as int);
    lemma_pad2_val(t.month as int);
    lemma_pad2_val(t.day as int);
    lemma_pad2_val(t.hour as int);
    lemma_pad2_val(t.minute as int);
    lemma_pad2_val(t.second as int);
    assert(ts_str(t)[0] == pad4(t.year as int)[0]);
    assert(ts_str(t)[1] == pad4(t.year as int)[1]);
    assert(ts_str(t)[2] == pad4(t.year as int)[2]);
    assert(ts_str(t)[3] == pad4(t.year as int)[3]);
    assert(ts_str(t)[4] == '-');
    assert(ts_str(t)[5] == pad2(t.month as int)[0]);
    assert(ts_str(t)[6] == pad2(t.month as int)[1]);
    assert(ts_str(t)[7] == '-');
    assert(ts_str(t)[8] == pad2(t.day as int)[0]);
    assert(ts_str(t)[9] == pad2(t.day as int)[1]);
    assert(ts_str(t)[10] == 'T');
    assert(ts_str(t)[11] == pad2(t.hour as int)[0]);
    assert(ts_str(t)[12] == pad2(t.hour as int)[1]);
    assert(ts_str(t)[13] == ':');
    assert(ts_str(t)[14] == pad2(t.minute as int)[0]);
    assert(ts_str(t)[15] == pad2(t.minute as int)[1]);
    assert(ts_str(t)[16] == ':');
    assert(ts_str(t)[17] == pad2(t.second as int)[0]);
    assert(ts_str(t)[18] == pad2(t.second as int)[1]);
    assert(ts_str(t)[19] == 'Z');
    assert(d4_val(input, pos) == t.year as int);
    assert(d2_val(input, pos + 5) == t.month as int);
    assert(d2_val(input, pos + 8) == t.day as int);
    assert(d2_val(input, pos + 11) == t.hour as int);
    assert(d2_val(input, pos + 14) == t.minute as int);
    assert(d2_val(input, pos + 17) == t.second as int);
}

/// A boolean's rendering reads back as the boolean.
proof fn lemma_bool_at_str(b: bool, input: Seq<char>, pos: int)
    requires
        0 <= pos,
        pos + bool_str(b).len() <= input.len(),
        input.subrange(pos, pos + bool_str(b).len()) == bool_str(b),
    ensures
        bool_at(input, pos) == Some((b, pos + bool_str(b).len())),
{
    reveal_strlit("true");
    reveal_strlit("false");
    if b {
        assert(lit_at(input, pos, "true"@));
    } else {
        assert(lit_at(input, pos, "false"@));
        if lit_at(input, pos, "true"@) {
            assert(input.subrange(pos, pos + 4)[0] == 't');
            assert(input.subrange(pos, pos + 5)[0] == 'f');
            assert(false);
        }
    }
}

/// An escaped key followed by its closing quote reads back as the key.
proof fn lemma_unesc_esc(key: Seq<char>, input: Seq<char>, pos: int)
    requires
        0 <= pos,
        pos + esc(key).len() + 1 <= input.len(),
        input.subrange(pos, pos + esc(key).len()) == esc(key),
        input[pos + esc(key).len()] == '"',
    ensures
        unesc_at(input, pos) == Some((key, pos + esc(key).len() + 1)),
    decreases key.len(),
{
    if key.len() == 0 {
        assert(esc(key).len() == 0);
        assert(input[pos] == '"');
    } else {
        let c = key[0];
        let rest = key.drop_first();
        assert(esc(key) == esc_char(c) + esc(rest));
        let cl = esc_char(c).len() as int;
        assert forall|k: int| 0 <= k < esc(key).len() implies input[pos + k] == esc(key)[k] by {
            assert(input.subrange(pos, pos + esc(key).len())[k] == esc(key)[k]);
        }
        assert forall|k: int| 0 <= k < esc_char(c).len() implies esc(key)[k] == esc_char(c)[k] by {}
        assert forall|k: int| 0 <= k < esc(rest).len() implies esc(key)[cl + k] == esc(rest)[k] by {}
        assert(input.subrange(pos + cl, pos + cl + esc(rest).len()) =~= esc(rest));
        assert(input[pos + cl + esc(rest).len()] == '"');
        lemma_unesc_esc(rest, input, pos + cl);
        if c == '"' {
            assert(input[pos] == esc_char(c)[0]);
            assert(input[pos + 1] == '"');
            assert(unesc_at(input, pos) == Some((seq![input[pos + 1]] + rest, pos + cl + esc(
                rest,
            ).len() + 1)));
            assert(seq![input[pos + 1]] + rest =~= key);
        } else if c == '\\' {
            assert(input[pos] == esc_char(c)[0]);
            assert(input[pos + 1] == '\\');
            assert(seq![input[pos + 1]] + rest =~= key);
        } else {
            assert(esc_char(c)[0] == c);
            assert(input[pos + 0] == esc(key)[0]);
            assert(input[pos] == c);
            assert(seq![input[pos]] + rest =~= key);
        }
    }
}

/// An entry's rendering reads back as the entry.
#[verifier::rlimit(60)]
proof fn lemma_entry_at_str(u: AbridgedUser, input: Seq<char>, pos: int)
    requires
        u.wf(),
        0 <= pos,
        pos + entry_str(u).len() <= input.len(),
        input.subrange(pos, pos + entry_str(u).len()) == entry_str(u),
    ensures
        entry_at(input, pos) == Some((u, pos + entry_str(u).len())),
{
    let l1 = "{\"registrationDate\":\""@;
    let l2 = "\",\"isPatron\":"@;
    let l3 = ",\"isMentor\":"@;
    let l4 = ",\"cacheTime\":\""@;
    let l5 = "\"}"@;
    let t1 = ts_str(u.registration_date);
    let b1 = bool_str(u.is_patron);
    let b2 = bool_str(u.is_mentor);
    let t2 = ts_str(u.cache_time);
    let r1 = t1 + l2 + b1 + l3 + b2 + l4 + t2 + l5;
    let r2 = l2 + b1 + l3 + b2 + l4 + t2 + l5;
    let r3 = b1 + l3 + b2 + l4 + t2 + l5;
    let r4 = l3 + b2 + l4 + t2 + l5;
    let r5 = b2 + l4 + t2 + l5;
    let r6 = l4 + t2 + l5;
    let r7 = t2 + l5;
    assert(entry_str(u) =~= l1 + r1);
    lemma_split_at(input, pos, l1, r1);
    let p1 = pos + l1.len();
    assert(r1 =~= t1 + r2);
    lemma_split_at(input, p1, t1, r2);
    assert(t1.len() == 20);
    lemma_ts_at_str(u.registration_date, input, p1);
    let p2 = p1 + 20;
    assert(r2 =~= l2 + r3);
    lemma_split_at(input, p2, l2, r3);
    assert(lit_at(input, p2, l2));
    let p3 = p2 + l2.len();
    assert(r3 =~= b1 + r4);
    lemma_split_at(input, p3, b1, r4);
    lemma_bool_at_str(u.is_patron, input, p3);
    let p4 = p3 + b1.len();
    assert(r4 =~= l3 + r5);
    lemma_split_at(input, p4, l3, r5);
    assert(lit_at(input, p4, l3));
    let p5 = p4 + l3.len();
    assert(r5 =~= b2 + r6);
    lemma_split_at(input, p5, b2, r6);
    lemma_bool_at_str(u.is_mentor, input, p5);
    let p6 = p5 + b2.len();
    assert(r6 =~= l4 + r7);
    lemma_split_at(input, p6, l4, r7);
    assert(lit_at(input, p6, l4));
    let p7 = p6 + l4.len();
    assert(r7 =~= t2 + l5);
    lemma_split_at(input, p7, t2, l5);
    assert(t2.len() == 20);
    lemma_ts_at_str(u.cache_time, input, p7);
    let p8 = p7 + 20;
    assert(lit_at(input, p8, l5));
    assert(p8 + l5.len() == pos + entry_str(u).len());
}

/// A pair's rendering reads back as the pair.
proof fn lemma_pair_at_str(p: (Seq<char>, AbridgedUser), input: Seq<char>, pos: int)
    requires
        p.1.wf(),
        0 <= pos,
        pos + pair_str(p).len() <= input.len(),
        input.subrange(pos, pos + pair_str(p).len()) == pair_str(p),
    ensures
        pair_at(input, pos) == Some((p, pos + pair_str(p).len())),
        pair_str(p).len() >= 1,
{
    let e = esc(p.0);
    let q = seq!['"'];
    let mid = seq!['"', ':'];
    let ent = entry_str(p.1);
    let r1 = e + mid + ent;
    assert(pair_str(p) =~= q + r1);
    lemma_split_at(input, pos, q, r1);
    assert(input.subrange(pos, pos + 1)[0] == '"');
    assert(input[pos] == '"');
    let p1 = pos + 1;
    assert(r1 =~= e + (mid + ent));
    lemma_split_at(input, p1, e, mid + ent);
    let p2 = p1 + e.len();
    lemma_split_at(input, p2, mid, ent);
    assert(input.subrange(p2, p2 + 2)[0] == '"');
    assert(input.subrange(p2, p2 + 2)[1] == ':');
    assert(input[p2] == '"');
    assert(input[p2 + 1] == ':');
    lemma_unesc_esc(p.0, input, p1);
    assert(key_at(input, pos) == Some((p.0, p2 + 1)));
    lemma_entry_at_str(p.1, input, p2 + 2);
    assert(p2 + 2 + ent.len() == pos + pair_str(p).len());
}

/// A run of pairs, rendered and followed by the closing brace, reads back as
/// the run.
#[verifier::rlimit(60)]
proof fn lemma_pairs_at_str(s: Seq<(Seq<char>, AbridgedUser)>, input: Seq<char>, pos: int)
    requires
        s.len() >= 1,
        forall|i: int| 0 <= i < s.len() ==> (#[trigger] s[i]).1.wf(),
        0 <= pos,
        pos + pairs_str(s).len() < input.len(),
        input.subrange(pos, pos + pairs_str(s).len()) == pairs_str(s),
        input[pos + pairs_str(s).len()] == '}',
    ensures
        pairs_at(input, pos) == Some((s, pos + pairs_str(s).len())),
    decreases s.len(),
{
    if s.len() == 1 {
        assert(pairs_str(s) == pair_str(s[0]));
        lemma_pair_at_str(s[0], input, pos);
        let q = pos + pair_str(s[0]).len();
        assert(input[q] == '}');
        assert(seq![s[0]] =~= s);
    } else {
        let rest = s.drop_first();
        assert(pairs_str(s) == pair_str(s[0]) + seq![','] + pairs_str(rest));
        let a = pair_str(s[0]);
        let r1 = seq![','] + pairs_str(rest);
        assert(pairs_str(s) =~= a + r1);
        lemma_split_at(input, pos, a, r1);
        lemma_pair_at_str(s[0], input, pos);
        let q = pos + a.len();
        lemma_split_at(input, q, seq![','], pairs_str(rest));
        assert(input.subrange(q, q + 1)[0] == ',');
        assert(input[q] == ',');
        assert(forall|i: int| 0 <= i < rest.len() ==> (#[trigger] rest[i]).1.wf());
        lemma_pairs_at_str(rest, input, q + 1);
        assert(seq![s[0]] + rest =~= s);
    }
}

/// Reloading the rendered cache gives back exactly the same entries.
pub proof fn lemma_cache_round_trip(entries: Seq<(Seq<char>, AbridgedUser)>)
    requires
        unique_keys(entries),
        forall|i: int| 0 <= i < entries.len() ==> (#[trigger] entries[i]).1.wf(),
    ensures
        parse_cache_spec(cache_json(entries)) == Some(entries),
{
    let input = cache_json(entries);
    if entries.len() == 0 {
        assert(pairs_str(entries) =~= Seq::<char>::empty());
        assert(input =~= seq!['{', '}']);
        assert(parse_cache_spec(input) == Some(entries));
    } else {
        assert(pair_str(entries[0]).len() >= 1);
        assert(pairs_str(entries).len() >= 1);
        assert(input.len() == 2 + pairs_str(entries).len());
        assert(input[0] == '{');
        assert(input[input.len() - 1] == '}');
        assert(input.subrange(1, 1 + pairs_str(entries).len() as int) =~= pairs_str(entries));
        lemma_pairs_at_str(entries, input, 1);
        assert(parse_cache_spec(input) == Some(entries));
    }
}

/// Reloading what `serialize_cache` wrote yields the same cache entries.
pub proof fn lemma_cache_json_round_trip(c: UserCache)
    requires
        c.wf(),
    ensures
        parse_cache_spec(cache_json(c.entries_view())) == Some(c.entries_view()),
{
    lemma_cache_round_trip(c.entries_view());
}

} // verus!
