//! Rendering the session report and the user-name report.

use vstd::prelude::*;
use vstd::string::StringExecFns;
use crate::bridge::{local_date_string, lower_of, lowercase};
use crate::cache::AbridgedUser;
use crate::numfmt::{append_digit, append_i64, append_u64, digit_char, int_str};
use crate::session::{opt_view, Session, SessionUser, SessionWithHostInfo};
use crate::textsort::{
    append_joined,
    dedup_adj,
    dedup_strings,
    join_nl,
    line_views,
    pair_views,
    sort_asc,
    sort_desc,
    sort_lines_desc,
    sort_pairs_asc,
    str_views,
};
use crate::time::Timestamp;

verus! {

/// Rust's truncating division by sixty.
pub open spec fn trunc_div60(secs: int) -> int {
    if secs >= 0 {
        secs / 60
    } else {
        -((-secs) / 60)
    }
}

/// Rust's remainder by sixty (same sign as the dividend).
pub open spec fn trunc_rem60(secs: int) -> int {
    secs - 60 * trunc_div60(secs)
}

/// A seconds value zero-padded to two places, as `{:02}` renders it.
pub open spec fn pad2_signed(s: int) -> Seq<char> {
    if 0 <= s <= 9 {
        seq!['0', digit_char(s)]
    } else {
        int_str(s)
    }
}

/// An uptime in whole seconds rendered as minutes and seconds.
pub open spec fn mmss_str(secs: int) -> Seq<char> {
    int_str(trunc_div60(secs)) + seq![':'] + pad2_signed(trunc_rem60(secs))
}

/// Appends the minutes:seconds rendering of `secs`.
fn append_mmss(out: &mut String, secs: i64)
    requires
        -320_000_000_000 <= secs <= 320_000_000_000,
    ensures
        final(out)@ == old(out)@ + mmss_str(secs as int),
{
    proof {
        reveal_strlit(":");
    }
    if secs >= 0 {
        let s = secs as u64;
        append_u64(out, s / 60);
        out.append(":");
        let r = s % 60;
        if r <= 9 {
            append_digit(out, 0);
            append_digit(out, r);
        } else {
            append_u64(out, r);
        }
        proof {
            assert(final(out)@ =~= old(out)@ + mmss_str(secs as int));
        }
    } else {
        let p = (-secs) as u64;
        let mq = p / 60;
        let mr = p % 60;
        let m: i64 = -(mq as i64);
        let s_val: i64 = -(mr as i64);
        proof {
            assert(m == trunc_div60(secs as int));
            assert(s_val == trunc_rem60(secs as int));
        }
        append_i64(out, m);
        out.append(":");
        if s_val == 0 {
            append_digit(out, 0);
            append_digit(out, 0);
        } else {
            append_i64(out, s_val);
        }
        proof {
            assert(final(out)@ =~= old(out)@ + mmss_str(secs as int));
        }
    }
}

pub open spec fn session_name_view(name: Option<String>) -> Seq<char> {
    match name {
        Some(n) => n@,
        None => Seq::empty(),
    }
}

/// One report line: host, session name inside the fixed markup, population,
/// uptime, and the host annotation suffix.
pub open spec fn session_line_spec(
    host_username: Seq<char>,
    name: Seq<char>,
    active: int,
    joined: int,
    uptime_secs: int,
    suffix: Seq<char>,
) -> Seq<char> {
    host_username + " ("@ + name + "<b></closeall>) ("@ + int_str(active) + "/"@ + int_str(joined)
        + ") "@ + mmss_str(uptime_secs) + suffix
}

/// Renders one session's report line, the uptime taken at `now`.
pub fn session_line(s: &Session, now: &Timestamp, suffix: &str) -> (r: String)
    requires
        s.session_begin_time.wf(),
        now.wf(),
    ensures
        r@ == session_line_spec(
            s.host_username@,
            session_name_view(s.name),
            s.active_users as int,
            s.joined_users as int,
            now.abs_secs() - s.session_begin_time.abs_secs(),
            suffix@,
        ),
{
    let mut out = String::new();
    out.append(s.host_username.as_str());
    out.append(" (");
    match s.name.as_ref() {
        Some(n) => out.append(n.as_str()),
        None => (),
    }
    out.append("<b></closeall>) (");
    append_i64(&mut out, s.active_users as i64);
    out.append("/");
    append_i64(&mut out, s.joined_users as i64);
    out.append(") ");
    let secs: i64 = now.to_abs_secs() - s.session_begin_time.to_abs_secs();
    append_mmss(&mut out, secs);
    out.append(suffix);
    proof {
        assert(out@ =~= session_line_spec(
            s.host_username@,
            session_name_view(s.name),
            s.active_users as int,
            s.joined_users as int,
            now.abs_secs() - s.session_begin_time.abs_secs(),
            suffix@,
        ));
    }
    out
}

/// The host annotation: registration date, then the patron and mentor marks,
/// then the output device when one resolved.
pub open spec fn host_suffix_spec(
    date: Seq<char>,
    is_patron: bool,
    is_mentor: bool,
    device: Option<Seq<char>>,
) -> Seq<char> {
    " "@ + date + (if is_patron {
        " patron"@
    } else {
        Seq::<char>::empty()
    }) + (if is_mentor {
        " mentor"@
    } else {
        Seq::<char>::empty()
    }) + (match device {
        Some(d) => " "@ + d,
        None => Seq::<char>::empty(),
    })
}

/// Renders the host annotation from an already-rendered registration date.
pub fn host_suffix(date: &str, is_patron: bool, is_mentor: bool, device: &Option<String>) -> (r:
    String)
    ensures
        r@ == host_suffix_spec(date@, is_patron, is_mentor, opt_view(*device)),
{
    let mut out = String::new();
    out.append(" ");
    out.append(date);
    if is_patron {
        out.append(" patron");
    }
    if is_mentor {
        out.append(" mentor");
    }
    match device.as_ref() {
        Some(d) => {
            out.append(" ");
            out.append(d.as_str());
        },
        None => (),
    }
    proof {
        assert(out@ =~= host_suffix_spec(date@, is_patron, is_mentor, opt_view(*device)));
    }
    out
}

/// Renders the host annotation for a resolved profile; the date text comes
/// from the machine's local timezone, so it is existentially quantified.
pub fn host_annotation(user: &AbridgedUser, device: &Option<String>) -> (r: String)
    ensures
        exists|d: Seq<char>|
            r@ == host_suffix_spec(d, user.is_patron, user.is_mentor, opt_view(*device)),
{
    let date = local_date_string(&user.registration_date);
    let out = host_suffix(date.as_str(), user.is_patron, user.is_mentor, device);
    proof {
        assert(out@ == host_suffix_spec(date@, user.is_patron, user.is_mentor, opt_view(*device)));
    }
    out
}

/// One session's report entry: the sort key (seconds of the begin time) and
/// the rendered line; the annotation is empty when no profile resolved.
pub fn format_session_entry(s: &SessionWithHostInfo, now: &Timestamp, device: &Option<String>) -> (r:
    (i64, String))
    requires
        s.session.session_begin_time.wf(),
        now.wf(),
    ensures
        r.0 == s.session.session_begin_time.abs_secs(),
        s.host_info is None ==> r.1@ == session_line_spec(
            s.session.host_username@,
            session_name_view(s.session.name),
            s.session.active_users as int,
            s.session.joined_users as int,
            now.abs_secs() - s.session.session_begin_time.abs_secs(),
            Seq::<char>::empty(),
        ),
        s.host_info matches Some(h) ==> exists|d: Seq<char>|
            r.1@ == session_line_spec(
                s.session.host_username@,
                session_name_view(s.session.name),
                s.session.active_users as int,
                s.session.joined_users as int,
                now.abs_secs() - s.session.session_begin_time.abs_secs(),
                host_suffix_spec(d, h.is_patron, h.is_mentor, opt_view(*device)),
            ),
{
    let key = s.session.session_begin_time.to_abs_secs();
    match s.host_info.as_ref() {
        Some(h) => {
            let suffix = host_annotation(h, device);
            let line = session_line(&s.session, now, suffix.as_str());
            (key, line)
        },
        None => {
            let line = session_line(&s.session, now, "");
            proof {
                reveal_strlit("");
                assert(""@ =~= Seq::<char>::empty());
            }
            (key, line)
        },
    }
}

pub open spec fn report_lines(s: Seq<(i64, Seq<char>)>) -> Seq<Seq<char>> {
    s.map_values(|p: (i64, Seq<char>)| p.1)
}

/// The whole session report: the notification marker, then the lines sorted
/// by begin time descending, joined by newlines.
pub open spec fn session_report_spec(items: Seq<(i64, Seq<char>)>, notification: bool) -> Seq<
    char,
> {
    (if notification {
        "N"@
    } else {
        "X"@
    }) + join_nl(report_lines(sort_desc(items)))
}

/// Renders the report body from keyed lines and the notification flag.
#[verifier::loop_isolation(false)]
pub fn render_session_report(items: Vec<(i64, String)>, notification: bool) -> (r: String)
    ensures
        r@ == session_report_spec(line_views(items@), notification),
{
    let ghost items_view = line_views(items@);
    let sorted = sort_lines_desc(items);
    let mut lines: Vec<String> = Vec::new();
    let n = sorted.len();
    let mut i: usize = 0;
    proof {
        assert(str_views(lines@) =~= report_lines(line_views(sorted@).subrange(0, 0)));
    }
    while i < n
        invariant
            i <= n,
            n == sorted@.len(),
            line_views(sorted@) == sort_desc(items_view),
            str_views(lines@) == report_lines(line_views(sorted@).subrange(0, i as int)),
        decreases n - i,
    {
        let ghost pre_lines = lines@;
        lines.push(sorted[i].1.clone());
        proof {
            let sv = line_views(sorted@);
            assert(lines@[i as int] == sorted@[i as int].1);
            assert(str_views(lines@)[i as int] == sorted@[i as int].1@);
            assert(sv[i as int] == (sorted@[i as int].0, sorted@[i as int].1@));
            assert(report_lines(sv.subrange(0, i + 1))[i as int] == sv[i as int].1);
            assert forall|k: int| 0 <= k < i implies str_views(lines@)[k] == report_lines(
                sv.subrange(0, i + 1),
            )[k] by {
                assert(lines@[k] == pre_lines[k]);
                assert(str_views(pre_lines)[k] == report_lines(sv.subrange(0, i as int))[k]);
                assert(sv.subrange(0, i as int)[k] == sv[k]);
                assert(sv.subrange(0, i + 1)[k] == sv[k]);
            }
            assert(str_views(lines@) =~= report_lines(sv.subrange(0, i + 1)));
        }
        i = i + 1;
    }
    proof {
        assert(line_views(sorted@).subrange(0, n as int) =~= line_views(sorted@));
    }
    let mut out = String::new();
    if notification {
        out.append("N");
    } else {
        out.append("X");
    }
    append_joined(&mut out, &lines);
    proof {
        assert(out@ =~= session_report_spec(items_view, notification));
    }
    out
}

/// A participant's entry in the user-name report: the username, marked with a
/// leading question mark when no user id resolved.
pub open spec fn question_name(u: SessionUser) -> Seq<char> {
    match u.user_id {
        Some(_) => u.username@,
        None => "?"@ + u.username@,
    }
}

pub fn username_entry(u: &SessionUser) -> (r: String)
    ensures
        r@ == question_name(*u),
{
    match u.user_id.as_ref() {
        Some(_) => u.username.clone(),
        None => {
            let mut out = String::new();
            out.append("?");
            out.append(u.username.as_str());
            proof {
                assert(out@ =~= question_name(*u));
            }
            out
        },
    }
}

pub open spec fn lower_pairs(names: Seq<Seq<char>>) -> Seq<(Seq<char>, Seq<char>)> {
    names.map_values(|n: Seq<char>| (lower_of(n), n))
}

pub open spec fn report_names(s: Seq<(Seq<char>, Seq<char>)>) -> Seq<Seq<char>> {
    s.map_values(|p: (Seq<char>, Seq<char>)| p.1)
}

/// The user-name report: the names sorted by their lowercase forms, adjacent
/// exact duplicates dropped, joined by newlines.
pub open spec fn user_report_spec(names: Seq<Seq<char>>) -> Seq<char> {
    join_nl(dedup_adj(report_names(sort_asc(lower_pairs(names)))))
}

/// Renders the user-name report from the collected participant entries.
#[verifier::loop_isolation(false)]
pub fn user_report(names: &Vec<String>) -> (r: String)
    ensures
        r@ == user_report_spec(str_views(names@)),
{
    let mut pairs: Vec<(String, String)> = Vec::new();
    let n = names.len();
    let mut i: usize = 0;
    proof {
        assert(pair_views(pairs@) =~= lower_pairs(str_views(names@).subrange(0, 0)));
        assert(str_views(names@).subrange(0, 0) =~= str_views(names@.subrange(0, 0)));
    }
    while i < n
        invariant
            i <= n,
            n == names@.len(),
            pair_views(pairs@) == lower_pairs(str_views(names@).subrange(0, i as int)),
        decreases n - i,
    {
        let ghost pre_pairs = pairs@;
        let key = lowercase(names[i].as_str());
        pairs.push((key, names[i].clone()));
        proof {
            let nv = str_views(names@);
            assert(pairs@[i as int] == (key, names@[i as int]));
            assert(pair_views(pairs@)[i as int] == (key@, names@[i as int]@));
            assert(lower_pairs(nv.subrange(0, i + 1))[i as int] == (
                lower_of(nv[i as int]),
                nv[i as int],
            ));
            assert forall|k: int| 0 <= k < i implies pair_views(pairs@)[k] == lower_pairs(
                nv.subrange(0, i + 1),
            )[k] by {
                assert(pairs@[k] == pre_pairs[k]);
                assert(pair_views(pre_pairs)[k] == lower_pairs(nv.subrange(0, i as int))[k]);
                assert(nv.subrange(0, i as int)[k] == nv[k]);
                assert(nv.subrange(0, i + 1)[k] == nv[k]);
            }
            assert(pair_views(pairs@) =~= lower_pairs(nv.subrange(0, i + 1)));
        }
        i = i + 1;
    }
    proof {
        assert(str_views(names@).subrange(0, n as int) =~= str_views(names@));
    }
    let sorted = sort_pairs_asc(pairs);
    let mut sorted_names: Vec<String> = Vec::new();
    let m = sorted.len();
    let mut j: usize = 0;
    proof {
        assert(str_views(sorted_names@) =~= report_names(pair_views(sorted@).subrange(0, 0)));
    }
    while j < m
        invariant
            j <= m,
            m == sorted@.len(),
            pair_views(sorted@) == sort_asc(lower_pairs(str_views(names@))),
            str_views(sorted_names@) == report_names(pair_views(sorted@).subrange(0, j as int)),
        decreases m - j,
    {
        let ghost pre_sn = sorted_names@;
        sorted_names.push(sorted[j].1.clone());
        proof {
            let pv = pair_views(sorted@);
            assert(sorted_names@[j as int] == sorted@[j as int].1);
            assert(str_views(sorted_names@)[j as int] == sorted@[j as int].1@);
            assert(pv[j as int] == (sorted@[j as int].0@, sorted@[j as int].1@));
            assert(report_names(pv.subrange(0, j + 1))[j as int] == pv[j as int].1);
            assert forall|k: int| 0 <= k < j implies str_views(sorted_names@)[k] == report_names(
                pv.subrange(0, j + 1),
            )[k] by {
                assert(sorted_names@[k] == pre_sn[k]);
                assert(str_views(pre_sn)[k] == report_names(pv.subrange(0, j as int))[k]);
                assert(pv.subrange(0, j as int)[k] == pv[k]);
                assert(pv.subrange(0, j + 1)[k] == pv[k]);
            }
            assert(str_views(sorted_names@) =~= report_names(pv.subrange(0, j + 1)));
        }
        j = j + 1;
    }
    proof {
        assert(pair_views(sorted@).subrange(0, m as int) =~= pair_views(sorted@));
    }
    let deduped = dedup_strings(&sorted_names);
    let mut out = String::new();
    append_joined(&mut out, &deduped);
    proof {
        assert(out@ =~= user_report_spec(str_views(names@)));
    }
    out
}

/// The participant entries of every fetched session, headless host entries
/// dropped, each rendered as its report name.
pub open spec fn all_headed_names(sessions: Seq<Session>) -> Seq<Seq<char>>
    decreases sessions.len(),
{
    if sessions.len() == 0 {
        Seq::empty()
    } else {
        all_headed_names(sessions.drop_last()) + session_headed_names(sessions.last())
    }
}

pub open spec fn session_headed_names(s: Session) -> Seq<Seq<char>> {
    crate::session::headed_users_spec(
        s.session_users@,
        s.host_user_id,
        s.host_username@,
        s.headless_host,
    ).map_values(|u: SessionUser| question_name(u))
}

/// Collects every fetched session's participant names for the user report.
#[verifier::loop_isolation(false)]
pub fn collect_headed_names(sessions: &Vec<Session>) -> (r: Vec<String>)
    ensures
        str_views(r@) == all_headed_names(sessions@),
{
    let mut out: Vec<String> = Vec::new();
    let n = sessions.len();
    let mut i: usize = 0;
    proof {
        assert(str_views(out@) =~= all_headed_names(sessions@.subrange(0, 0)));
    }
    while i < n
        invariant
            i <= n,
            n == sessions@.len(),
            str_views(out@) == all_headed_names(sessions@.subrange(0, i as int)),
        decreases n - i,
    {
        let users = sessions[i].headed_users();
        let m = users.len();
        let mut j: usize = 0;
        let ghost base = str_views(out@);
        while j < m
            invariant
                j <= m,
                m == users@.len(),
                users@ == crate::session::headed_users_spec(
                    sessions@[i as int].session_users@,
                    sessions@[i as int].host_user_id,
                    sessions@[i as int].host_username@,
                    sessions@[i as int].headless_host,
                ),
                str_views(out@) == base + session_headed_names(sessions@[i as int]).subrange(
                    0,
                    j as int,
                ),
            decreases m - j,
        {
            let ghost pre_out = out@;
            let entry = username_entry(&users[j]);
            out.push(entry);
            proof {
                let shn = session_headed_names(sessions@[i as int]);
                let b = base.len() as int;
                assert(shn[j as int] == question_name(users@[j as int]));
                assert(out@[b + j] == entry);
                assert(str_views(out@)[b + j] == shn[j as int]);
                assert((base + shn.subrange(0, j + 1))[b + j] == shn[j as int]);
                assert forall|k: int| 0 <= k < b + j implies str_views(out@)[k] == (base
                    + shn.subrange(0, j + 1))[k] by {
                    assert(out@[k] == pre_out[k]);
                    assert(str_views(pre_out)[k] == (base + shn.subrange(0, j as int))[k]);
                    if k < b {
                        assert((base + shn.subrange(0, j as int))[k] == base[k]);
                        assert((base + shn.subrange(0, j + 1))[k] == base[k]);
                    } else {
                        assert((base + shn.subrange(0, j as int))[k] == shn[k - b]);
                        assert((base + shn.subrange(0, j + 1))[k] == shn[k - b]);
                    }
                }
                assert(str_views(out@) =~= base + shn.subrange(0, j + 1));
            }
            j = j + 1;
        }
        proof {
            let cur = sessions@.subrange(0, i + 1 as int);
            assert(cur.drop_last() =~= sessions@.subrange(0, i as int));
            assert(cur.last() == sessions@[i as int]);
            assert(session_headed_names(sessions@[i as int]).subrange(
                0,
                m as int,
            ) =~= session_headed_names(sessions@[i as int]));
            assert(str_views(out@) =~= all_headed_names(cur));
        }
        i = i + 1;
    }
    proof {
        assert(sessions@.subrange(0, n as int) =~= sessions@);
    }
    out
}

} // verus!
