//! The chat-log parser: a line-oriented state machine that reconstructs
//! multi-line message records from two line-start timestamp conventions,
//!
//! - bracketed, seconds-precision: `[D/M/YY, H:MM:SS] sender: content`, and
//! - dashed, minute-precision: `D/M/YY, H:MM - sender: content`,
//!
//! together with the detection heuristic that classifies a document as a chat
//! export.

use vstd::prelude::*;
use vstd::string::StrSliceExecFns;
use crate::text::{is_digit, digit_char, str_to_chars, split_lines, str_views, spec_lines};
use crate::models::{ChatRecord, RecordView, rec_views};

verus! {

/// Length of the run of consecutive digits starting at `i`.
pub open spec fn digit_run(s: Seq<char>, i: int) -> int
    decreases s.len() - i,
{
    if 0 <= i < s.len() && is_digit(s[i]) {
        1 + digit_run(s, i + 1)
    } else {
        0
    }
}

/// Matches a digit group of `lo` to `hi` digits followed by the separator
/// `sep`, starting at `i`; yields the position directly after the separator.
/// A longer run of digits does not match: the separator must follow the run.
pub open spec fn match_num_sep(s: Seq<char>, i: int, lo: int, hi: int, sep: char) -> Option<int> {
    let r = digit_run(s, i);
    if lo <= r && r <= hi && 0 <= i && i + r < s.len() && s[i + r] == sep {
        Option::Some(i + r + 1)
    } else {
        Option::None
    }
}

/// Matches `[D/M/YY, H:MM:SS]` starting at `i`; yields the position of `]`.
pub open spec fn ios_stamp_at(s: Seq<char>, i: int) -> Option<int> {
    if 0 <= i < s.len() && s[i] == '[' {
        match match_num_sep(s, i + 1, 1, 2, '/') {
            Option::Some(p1) => match match_num_sep(s, p1, 1, 2, '/') {
                Option::Some(p2) => match match_num_sep(s, p2, 2, 4, ',') {
                    Option::Some(p3) => if p3 < s.len() && s[p3] == ' ' {
                        match match_num_sep(s, p3 + 1, 1, 2, ':') {
                            Option::Some(p4) => match match_num_sep(s, p4, 2, 2, ':') {
                                Option::Some(p5) => match match_num_sep(s, p5, 2, 2, ']') {
                                    Option::Some(p6) => Option::Some(p6 - 1),
                                    Option::None => Option::None,
                                },
                                Option::None => Option::None,
                            },
                            Option::None => Option::None,
                        }
                    } else {
                        Option::None
                    },
                    Option::None => Option::None,
                },
                Option::None => Option::None,
            },
            Option::None => Option::None,
        }
    } else {
        Option::None
    }
}

/// Matches `D/M/YY, H:MM -` starting at `i`; yields the position of `-`.
pub open spec fn android_stamp_at(s: Seq<char>, i: int) -> Option<int> {
    match match_num_sep(s, i, 1, 2, '/') {
        Option::Some(p1) => match match_num_sep(s, p1, 1, 2, '/') {
            Option::Some(p2) => match match_num_sep(s, p2, 2, 4, ',') {
                Option::Some(p3) => if p3 < s.len() && s[p3] == ' ' {
                    match match_num_sep(s, p3 + 1, 1, 2, ':') {
                        Option::Some(p4) => match match_num_sep(s, p4, 2, 2, ' ') {
                            Option::Some(p5) => if p5 < s.len() && s[p5] == '-' {
                                Option::Some(p5)
                            } else {
                                Option::None
                            },
                            Option::None => Option::None,
                        },
                        Option::None => Option::None,
                    }
                } else {
                    Option::None
                },
                Option::None => Option::None,
            },
            Option::None => Option::None,
        },
        Option::None => Option::None,
    }
}

/// Leftmost position `j >= i` where `": "` occurs, with room for it.
pub open spec fn find_colon_space(s: Seq<char>, i: int) -> Option<int>
    decreases s.len() - i,
{
    if i < 0 || i + 2 > s.len() {
        Option::None
    } else if s[i] == ':' && s[i + 1] == ' ' {
        Option::Some(i)
    } else {
        find_colon_space(s, i + 1)
    }
}

/// A full bracketed-format message line: `(date, sender, content)`. The
/// sender is the shortest span before a `": "` separator.
pub open spec fn match_ios_line(line: Seq<char>) -> Option<(Seq<char>, Seq<char>, Seq<char>)> {
    match ios_stamp_at(line, 0) {
        Option::Some(close) => if close + 1 < line.len() && line[close + 1] == ' ' {
            match find_colon_space(line, close + 2) {
                Option::Some(j) => Option::Some(
                    (
                        line.subrange(1, close),
                        line.subrange(close + 2, j),
                        line.subrange(j + 2, line.len() as int),
                    ),
                ),
                Option::None => Option::None,
            }
        } else {
            Option::None
        },
        Option::None => Option::None,
    }
}

/// A full dashed-format message line: `(date, sender, content)`.
pub open spec fn match_android_line(line: Seq<char>) -> Option<(Seq<char>, Seq<char>, Seq<char>)> {
    match android_stamp_at(line, 0) {
        Option::Some(dash) => if dash + 1 < line.len() && line[dash + 1] == ' ' {
            match find_colon_space(line, dash + 2) {
                Option::Some(j) => Option::Some(
                    (
                        line.subrange(0, dash - 1),
                        line.subrange(dash + 2, j),
                        line.subrange(j + 2, line.len() as int),
                    ),
                ),
                Option::None => Option::None,
            }
        } else {
            Option::None
        },
        Option::None => Option::None,
    }
}

/// A line that starts a new record, in either format.
pub open spec fn match_line(line: Seq<char>) -> Option<(Seq<char>, Seq<char>, Seq<char>)> {
    match match_ios_line(line) {
        Option::Some(t) => Option::Some(t),
        Option::None => match_android_line(line),
    }
}

/// A line starting with a date-like token `D/M/YY` (optionally after `[`),
/// regardless of whether a full timestamp follows.
pub open spec fn datelike_from(s: Seq<char>, i: int) -> bool {
    match match_num_sep(s, i, 1, 2, '/') {
        Option::Some(p1) => match match_num_sep(s, p1, 1, 2, '/') {
            Option::Some(p2) => digit_run(s, p2) >= 2,
            Option::None => false,
        },
        Option::None => false,
    }
}

pub open spec fn line_is_datelike(line: Seq<char>) -> bool {
    datelike_from(line, 0) || (line.len() > 0 && line[0] == '[' && datelike_from(line, 1))
}

/// The record a pending `(date, sender, content)` triple finalizes to.
pub open spec fn pending_record(p: (Seq<char>, Seq<char>, Seq<char>)) -> RecordView {
    RecordView { content: p.2, sender: Option::Some(p.1), date: Option::Some(p.0) }
}

/// One step of the parser: a matching line emits any pending record and
/// starts a new one; a date-like non-matching line is dropped; any other line
/// continues the pending record, or is dropped when none is pending.
pub open spec fn parse_step(
    st: Option<(Seq<char>, Seq<char>, Seq<char>)>,
    out: Seq<RecordView>,
    line: Seq<char>,
) -> (Option<(Seq<char>, Seq<char>, Seq<char>)>, Seq<RecordView>) {
    match match_line(line) {
        Option::Some(t) => (
            Option::Some(t),
            match st {
                Option::Some(p) => out.push(pending_record(p)),
                Option::None => out,
            },
        ),
        Option::None => if line_is_datelike(line) {
            (st, out)
        } else {
            match st {
                Option::Some(p) => (Option::Some((p.0, p.1, p.2 + seq!['\n'] + line)), out),
                Option::None => (st, out),
            }
        },
    }
}

pub open spec fn run_lines(
    lines: Seq<Seq<char>>,
    st: Option<(Seq<char>, Seq<char>, Seq<char>)>,
    out: Seq<RecordView>,
) -> (Option<(Seq<char>, Seq<char>, Seq<char>)>, Seq<RecordView>)
    decreases lines.len(),
{
    if lines.len() == 0 {
        (st, out)
    } else {
        let next = parse_step(st, out, lines[0]);
        run_lines(lines.drop_first(), next.0, next.1)
    }
}

/// The records parsed out of a chat export: the state machine run over the
/// lines of the text, with a still-pending record emitted at the end.
pub open spec fn parse_spec(text: Seq<char>) -> Seq<RecordView> {
    let end = run_lines(spec_lines(text), Option::None, Seq::empty());
    match end.0 {
        Option::Some(p) => end.1.push(pending_record(p)),
        Option::None => end.1,
    }
}

fn digit_run_exec(chars: &Vec<char>, i: usize) -> (r: usize)
    requires
        i <= chars@.len(),
    ensures
        r as int == digit_run(chars@, i as int),
        i + r <= chars@.len(),
{
    let n = chars.len();
    let mut j = i;
    while j < n && digit_char(chars[j])
        invariant
            i <= j <= n,
            n == chars@.len(),
            digit_run(chars@, i as int) == j - i + digit_run(chars@, j as int),
        decreases n - j,
    {
        j = j + 1;
    }
    j - i
}

fn match_num_sep_exec(chars: &Vec<char>, i: usize, lo: usize, hi: usize, sep: char) -> (r: Option<
    usize,
>)
    requires
        i <= chars@.len(),
    ensures
        match r {
            Option::Some(p) => match_num_sep(chars@, i as int, lo as int, hi as int, sep)
                == Option::Some(p as int) && i < p <= chars@.len(),
            Option::None => match_num_sep(chars@, i as int, lo as int, hi as int, sep) is None,
        },
{
    let n = chars.len();
    let run = digit_run_exec(chars, i);
    if lo <= run && run <= hi && i + run < n && chars[i + run] == sep {
        Some(i + run + 1)
    } else {
        None
    }
}

fn ios_stamp_at_exec(chars: &Vec<char>, i: usize) -> (r: Option<usize>)
    requires
        i <= chars@.len(),
    ensures
        match r {
            Option::Some(p) => ios_stamp_at(chars@, i as int) == Option::Some(p as int) && i < p
                < chars@.len(),
            Option::None => ios_stamp_at(chars@, i as int) is None,
        },
{
    if !(i < chars.len() && chars[i] == '[') {
        return None;
    }
    let p1 = match match_num_sep_exec(chars, i + 1, 1, 2, '/') {
        Some(p) => p,
        None => { return None; },
    };
    let p2 = match match_num_sep_exec(chars, p1, 1, 2, '/') {
        Some(p) => p,
        None => { return None; },
    };
    let p3 = match match_num_sep_exec(chars, p2, 2, 4, ',') {
        Some(p) => p,
        None => { return None; },
    };
    if !(p3 < chars.len() && chars[p3] == ' ') {
        return None;
    }
    let p4 = match match_num_sep_exec(chars, p3 + 1, 1, 2, ':') {
        Some(p) => p,
        None => { return None; },
    };
    let p5 = match match_num_sep_exec(chars, p4, 2, 2, ':') {
        Some(p) => p,
        None => { return None; },
    };
    let p6 = match match_num_sep_exec(chars, p5, 2, 2, ']') {
        Some(p) => p,
        None => { return None; },
    };
    Some(p6 - 1)
}

fn android_stamp_at_exec(chars: &Vec<char>, i: usize) -> (r: Option<usize>)
    requires
        i <= chars@.len(),
    ensures
        match r {
            Option::Some(p) => android_stamp_at(chars@, i as int) == Option::Some(p as int) && i
                < p < chars@.len(),
            Option::None => android_stamp_at(chars@, i as int) is None,
        },
{
    let p1 = match match_num_sep_exec(chars, i, 1, 2, '/') {
        Some(p) => p,
        None => { return None; },
    };
    let p2 = match match_num_sep_exec(chars, p1, 1, 2, '/') {
        Some(p) => p,
        None => { return None; },
    };
    let p3 = match match_num_sep_exec(chars, p2, 2, 4, ',') {
        Some(p) => p,
        None => { return None; },
    };
    if !(p3 < chars.len() && chars[p3] == ' ') {
        return None;
    }
    let p4 = match match_num_sep_exec(chars, p3 + 1, 1, 2, ':') {
        Some(p) => p,
        None => { return None; },
    };
    let p5 = match match_num_sep_exec(chars, p4, 2, 2, ' ') {
        Some(p) => p,
        None => { return None; },
    };
    if p5 < chars.len() && chars[p5] == '-' {
        Some(p5)
    } else {
        None
    }
}

fn find_colon_space_exec(chars: &Vec<char>, i: usize) -> (r: Option<usize>)
    requires
        i <= chars@.len(),
    ensures
        match r {
            Option::Some(j) => find_colon_space(chars@, i as int) == Option::Some(j as int) && i
                <= j && j + 2 <= chars@.len(),
            Option::None => find_colon_space(chars@, i as int) is None,
        },
{
    let n = chars.len();
    let mut j = i;
    while j < n && j + 1 < n
        invariant
            i <= j <= n,
            n == chars@.len(),
            find_colon_space(chars@, i as int) == find_colon_space(chars@, j as int),
        decreases n - j,
    {
        if chars[j] == ':' && chars[j + 1] == ' ' {
            return Some(j);
        }
        j = j + 1;
    }
    None
}

fn datelike_from_exec(chars: &Vec<char>, i: usize) -> (r: bool)
    requires
        i <= chars@.len(),
    ensures
        r == datelike_from(chars@, i as int),
{
    let p1 = match match_num_sep_exec(chars, i, 1, 2, '/') {
        Some(p) => p,
        None => { return false; },
    };
    let p2 = match match_num_sep_exec(chars, p1, 1, 2, '/') {
        Some(p) => p,
        None => { return false; },
    };
    let run = digit_run_exec(chars, p2);
    run >= 2
}

fn line_is_datelike_exec(chars: &Vec<char>) -> (r: bool)
    ensures
        r == line_is_datelike(chars@),
{
    if datelike_from_exec(chars, 0) {
        return true;
    }
    if chars.len() > 0 && chars[0] == '[' {
        datelike_from_exec(chars, 1)
    } else {
        false
    }
}

/// Matches one line against both formats; yields owned captures.
fn match_line_exec(line: &str, chars: &Vec<char>) -> (r: Option<(String, String, String)>)
    requires
        chars@ == line@,
    ensures
        match r {
            Option::Some(t) => match_line(line@) == Option::Some((t.0@, t.1@, t.2@)),
            Option::None => match_line(line@) is None,
        },
{
    let n = chars.len();
    match ios_stamp_at_exec(chars, 0) {
        Some(close) => {
            if close + 1 < n && chars[close + 1] == ' ' {
                match find_colon_space_exec(chars, close + 2) {
                    Some(j) => {
                        let date = s_sub(line, 1, close);
                        let sender = s_sub(line, close + 2, j);
                        let content = s_sub(line, j + 2, n);
                        return Some((date, sender, content));
                    },
                    None => { return None; },
                }
            } else {
                return None;
            }
        },
        None => {},
    }
    match android_stamp_at_exec(chars, 0) {
        Some(dash) => {
            if dash + 1 < n && chars[dash + 1] == ' ' {
                match find_colon_space_exec(chars, dash + 2) {
                    Some(j) => {
                        let date = s_sub(line, 0, dash - 1);
                        let sender = s_sub(line, dash + 2, j);
                        let content = s_sub(line, j + 2, n);
                        Some((date, sender, content))
                    },
                    None => None,
                }
            } else {
                None
            }
        },
        None => None,
    }
}

/// Owned copy of the characters `from..to` of `s`.
fn s_sub(s: &str, from: usize, to: usize) -> (r: String)
    requires
        from <= to <= s@.len(),
    ensures
        r@ == s@.subrange(from as int, to as int),
{
    s.substring_char(from, to).to_owned()
}

pub open spec fn pend_view(p: Option<(String, String, String)>) -> Option<
    (Seq<char>, Seq<char>, Seq<char>),
> {
    match p {
        Option::Some(t) => Option::Some((t.0@, t.1@, t.2@)),
        Option::None => Option::None,
    }
}

/// Parses a chat export into its ordered message records. Lines that match
/// neither timestamp format continue the pending record, unless they start
/// with a date-like token, in which case they are dropped.
pub fn parse_whatsapp(text: &str) -> (res: Vec<ChatRecord>)
    ensures
        rec_views(res@) == parse_spec(text@),
{
    let lines = split_lines(text);
    let n = lines.len();
    let ghost lviews = str_views(lines@);
    let mut out: Vec<ChatRecord> = Vec::new();
    let mut cur: Option<(String, String, String)> = None;
    proof {
        assert(lviews.skip(0) =~= lviews);
        assert(rec_views(out@) =~= Seq::<RecordView>::empty());
    }
    let mut k: usize = 0;
    while k < n
        invariant
            k <= n,
            n == lines@.len(),
            lviews == str_views(lines@),
            lviews == spec_lines(text@),
            run_lines(lviews, Option::None, Seq::empty()) == run_lines(
                lviews.skip(k as int),
                pend_view(cur),
                rec_views(out@),
            ),
        decreases n - k,
    {
        let ghost pre_st = pend_view(cur);
        let ghost pre_out = rec_views(out@);
        proof {
            assert(lviews.skip(k as int)[0] == lviews[k as int]);
            assert(lviews.skip(k as int).drop_first() =~= lviews.skip(k as int + 1));
        }
        let line: &String = &lines[k];
        let lc = str_to_chars(line.as_str());
        match match_line_exec(line.as_str(), &lc) {
            Some(t) => {
                match cur {
                    Some(p) => {
                        let rec = ChatRecord {
                            content: p.2,
                            sender: Some(p.1),
                            date: Some(p.0),
                        };
                        out.push(rec);
                        proof {
                            assert(rec_views(out@) =~= pre_out.push(rec@));
                        }
                    },
                    None => {},
                }
                cur = Some(t);
            },
            None => {
                if line_is_datelike_exec(&lc) {
                    // a date-like token without a full timestamp: drop the line
                } else {
                    cur = match cur {
                        Some(p) => {
                            let mut content = p.2;
                            content.append("\n");
                            content.append(line.as_str());
                            proof {
                                reveal_strlit("\n");
                                assert(content@ =~= p.2@ + seq!['\n'] + line@);
                            }
                            Some((p.0, p.1, content))
                        },
                        None => None,
                    };
                }
            },
        }
        proof {
            assert(run_lines(lviews.skip(k as int), pre_st, pre_out) == run_lines(
                lviews.skip(k as int + 1),
                pend_view(cur),
                rec_views(out@),
            ));
        }
        k = k + 1;
    }
    proof {
        assert(lviews.skip(n as int) =~= Seq::<Seq<char>>::empty());
    }
    match cur {
        Some(p) => {
            let ghost pre_out = rec_views(out@);
            let rec = ChatRecord { content: p.2, sender: Some(p.1), date: Some(p.0) };
            out.push(rec);
            proof {
                assert(rec_views(out@) =~= pre_out.push(rec@));
            }
        },
        None => {},
    }
    out
}

/// A bracketed timestamp `[D/M/YY, H:MM:SS]` occurs at some position of `s`.
pub open spec fn contains_ios_stamp(s: Seq<char>) -> bool {
    exists|i: int| 0 <= i < s.len() && ios_stamp_at(s, i) is Some
}

/// A dashed timestamp `D/M/YY, H:MM -` occurs at some position of `s`.
pub open spec fn contains_android_stamp(s: Seq<char>) -> bool {
    exists|i: int| 0 <= i < s.len() && android_stamp_at(s, i) is Some
}

/// A text is classified as a chat export when it is at least 500 characters
/// long and either timestamp format occurs within its first 500 characters.
/// Shorter texts are never classified as exports.
pub open spec fn is_export_spec(text: Seq<char>) -> bool {
    text.len() >= 500 && (contains_ios_stamp(text.take(500)) || contains_android_stamp(
        text.take(500),
    ))
}

/// The detection heuristic for chat exports.
pub fn is_whatsapp_export(content: &str) -> (r: bool)
    ensures
        r == is_export_spec(content@),
{
    let n = content.unicode_len();
    if n < 500 {
        return false;
    }
    let all = str_to_chars(content);
    let mut preview: Vec<char> = Vec::new();
    let mut i: usize = 0;
    while i < 500
        invariant
            i <= 500,
            all@ == content@,
            content@.len() >= 500,
            preview@ == content@.take(i as int),
        decreases 500 - i,
    {
        preview.push(all[i]);
        proof {
            assert(content@.take(i as int + 1) =~= content@.take(i as int).push(
                content@[i as int],
            ));
        }
        i = i + 1;
    }
    let mut j: usize = 0;
    while j < 500
        invariant
            j <= 500,
            preview@ == content@.take(500),
            preview@.len() == 500,
            content@.len() >= 500,
            forall|p: int|
                0 <= p < j ==> ios_stamp_at(preview@, p) is None && android_stamp_at(
                    preview@,
                    p,
                ) is None,
        decreases 500 - j,
    {
        if ios_stamp_at_exec(&preview, j).is_some() {
            return true;
        }
        if android_stamp_at_exec(&preview, j).is_some() {
            return true;
        }
        j = j + 1;
    }
    false
}

} // verus!
