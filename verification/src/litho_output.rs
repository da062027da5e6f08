//! One line of `litho -o gui` stdout/stderr, turned into a UI event.
use vstd::prelude::*;
use crate::fields::{fields_of, parse_field_chars, FieldMap};
use crate::text::{
    chars_eq, chars_of, eq_ignore_ascii_case, eq_ignore_ascii_case_seq, has_prefix_at, matches_at,
    opt_view, owned, parse_u64, parse_unsigned, string_of, sub_chars, trim_bounds, trim_seq,
};

verus! {

/// Parsed line from `litho -o gui` stdout/stderr.
///
/// `pct` holds the text of the `pct` field; it is a decimal fraction that
/// the host reads as a floating-point number.
#[derive(Debug, Clone, PartialEq)]
pub enum LithoUiEvent {
    Status { phase: Option<String>, message: Option<String> },
    Progress {
        phase: Option<String>,
        pct: Option<String>,
        bytes: Option<u64>,
        total: Option<u64>,
        message: Option<String>,
    },
    Error { message: String },
    Done { success: bool, cancelled: bool },
    Raw { stream: String, line: String },
}

/// The mathematical value of a `LithoUiEvent`.
pub enum UiEvent {
    Status { phase: Option<Seq<char>>, message: Option<Seq<char>> },
    Progress {
        phase: Option<Seq<char>>,
        pct: Option<Seq<char>>,
        bytes: Option<u64>,
        total: Option<u64>,
        message: Option<Seq<char>>,
    },
    Error { message: Seq<char> },
    Done { success: bool, cancelled: bool },
    Raw { stream: Seq<char>, line: Seq<char> },
}


impl View for LithoUiEvent {
    type V = UiEvent;

    open spec fn view(&self) -> UiEvent {
        match self {
            LithoUiEvent::Status { phase, message } => UiEvent::Status {
                phase: opt_view(*phase),
                message: opt_view(*message),
            },
            LithoUiEvent::Progress { phase, pct, bytes, total, message } => UiEvent::Progress {
                phase: opt_view(*phase),
                pct: opt_view(*pct),
                bytes: *bytes,
                total: *total,
                message: opt_view(*message),
            },
            LithoUiEvent::Error { message } => UiEvent::Error { message: message@ },
            LithoUiEvent::Done { success, cancelled } => UiEvent::Done {
                success: *success,
                cancelled: *cancelled,
            },
            LithoUiEvent::Raw { stream, line } => UiEvent::Raw { stream: stream@, line: line@ },
        }
    }
}

/// The value of field `key`, if the fields hold one.
pub open spec fn field(f: Map<Seq<char>, Seq<char>>, key: Seq<char>) -> Option<Seq<char>> {
    if f.contains_key(key) {
        Some(f[key])
    } else {
        None
    }
}

/// The value of field `key` read as a `u64`, if it is present and parses.
pub open spec fn u64_field(f: Map<Seq<char>, Seq<char>>, key: Seq<char>) -> Option<u64> {
    match field(f, key) {
        Some(v) => match parse_unsigned(v, u64::MAX as nat) {
            Some(n) => Some(n as u64),
            None => None,
        },
        None => None,
    }
}

/// The trimmed line `t` after its tag `p`.
pub open spec fn after_tag(t: Seq<char>, p: Seq<char>) -> Seq<char> {
    t.skip(p.len() as int)
}

/// The event for `line` read from `stream`: the line is trimmed, then
/// recognised by its tag (`@status `, `@progress `, `@error `, `@done `);
/// anything else is passed on as a raw line.
pub open spec fn line_event(stream: Seq<char>, line: Seq<char>) -> UiEvent {
    let t = trim_seq(line);
    if t.len() == 0 {
        UiEvent::Raw { stream, line: t }
    } else if has_prefix_at(t, 0, "@status "@) {
        let f = fields_of(after_tag(t, "@status "@));
        UiEvent::Status { phase: field(f, "phase"@), message: field(f, "msg"@) }
    } else if has_prefix_at(t, 0, "@progress "@) {
        let f = fields_of(after_tag(t, "@progress "@));
        UiEvent::Progress {
            phase: field(f, "phase"@),
            pct: field(f, "pct"@),
            bytes: u64_field(f, "bytes"@),
            total: u64_field(f, "total"@),
            message: field(f, "msg"@),
        }
    } else if has_prefix_at(t, 0, "@error "@) {
        let rest = after_tag(t, "@error "@);
        let f = fields_of(rest);
        UiEvent::Error {
            message: match field(f, "msg"@) {
                Some(m) => m,
                None => rest,
            },
        }
    } else if t == "@done ok"@ {
        UiEvent::Done { success: true, cancelled: false }
    } else if has_prefix_at(t, 0, "@done "@) {
        UiEvent::Done {
            success: eq_ignore_ascii_case_seq(after_tag(t, "@done "@), "ok"@),
            cancelled: false,
        }
    } else {
        UiEvent::Raw { stream, line: t }
    }
}

fn parse_u64_field(f: &FieldMap, key: &str) -> (r: Option<u64>)
    ensures
        r == u64_field(f@, key@),
{
    match f.get(key) {
        Some(v) => parse_u64(v.as_str()),
        None => None,
    }
}

/// Parses one protocol line (`stream` is "stdout" or "stderr").
pub fn parse_litho_line(stream: &str, line: &str) -> (r: LithoUiEvent)
    ensures
        r@ == line_event(stream@, line@),
{
    let v = chars_of(line);
    let (a, b) = trim_bounds(&v);
    let t = sub_chars(&v, a, b);
    if t.len() == 0 {
        return LithoUiEvent::Raw { stream: owned(stream), line: string_of(&t) };
    }
    let status = chars_of("@status ");
    if matches_at(&t, 0, &status) {
        let rest = sub_chars(&t, status.len(), t.len());
        assert(rest@ =~= after_tag(t@, "@status "@));
        let f = parse_field_chars(&rest);
        return LithoUiEvent::Status { phase: f.get("phase"), message: f.get("msg") };
    }
    let progress = chars_of("@progress ");
    if matches_at(&t, 0, &progress) {
        let rest = sub_chars(&t, progress.len(), t.len());
        assert(rest@ =~= after_tag(t@, "@progress "@));
        let f = parse_field_chars(&rest);
        return LithoUiEvent::Progress {
            phase: f.get("phase"),
            pct: f.get("pct"),
            bytes: parse_u64_field(&f, "bytes"),
            total: parse_u64_field(&f, "total"),
            message: f.get("msg"),
        };
    }
    let error = chars_of("@error ");
    if matches_at(&t, 0, &error) {
        let rest = sub_chars(&t, error.len(), t.len());
        assert(rest@ =~= after_tag(t@, "@error "@));
        let f = parse_field_chars(&rest);
        let message = match f.get("msg") {
            Some(m) => m,
            None => string_of(&rest),
        };
        return LithoUiEvent::Error { message };
    }
    let done_ok = chars_of("@done ok");
    if chars_eq(&t, &done_ok) {
        return LithoUiEvent::Done { success: true, cancelled: false };
    }
    let done = chars_of("@done ");
    if matches_at(&t, 0, &done) {
        let rest = sub_chars(&t, done.len(), t.len());
        assert(rest@ =~= after_tag(t@, "@done "@));
        let rest_text = string_of(&rest);
        return LithoUiEvent::Done {
            success: eq_ignore_ascii_case(rest_text.as_str(), "ok"),
            cancelled: false,
        };
    }
    LithoUiEvent::Raw { stream: owned(stream), line: string_of(&t) }
}

/// Whitespace around a line never changes the event it gives.
pub proof fn lemma_line_event_ignores_surrounding_whitespace(stream: Seq<char>, line: Seq<char>)
    ensures
        line_event(stream, trim_seq(line)) == line_event(stream, line),
{
    crate::text::lemma_trim_idempotent(line);
}

/// The message of a status, progress or error line is the value of its
/// `msg` field (an error line without one reports its whole text after the
/// tag); a status or progress line without `msg` has no message. The phase
/// and percentage are the `phase` and `pct` fields.
pub proof fn lemma_line_message_is_msg_field(stream: Seq<char>, line: Seq<char>)
    ensures
        ({
            let t = trim_seq(line);
            let ev = line_event(stream, line);
            &&& has_prefix_at(t, 0, "@status "@) ==> {
                let f = fields_of(t.skip(8));
                &&& ev is Status
                &&& ev->Status_message == if f.contains_key("msg"@) {
                    Some(f["msg"@])
                } else {
                    None
                }
                &&& ev->Status_phase == if f.contains_key("phase"@) {
                    Some(f["phase"@])
                } else {
                    None
                }
            }
            &&& has_prefix_at(t, 0, "@progress "@) ==> {
                let f = fields_of(t.skip(10));
                &&& ev is Progress
                &&& ev->Progress_message == if f.contains_key("msg"@) {
                    Some(f["msg"@])
                } else {
                    None
                }
                &&& ev->Progress_phase == if f.contains_key("phase"@) {
                    Some(f["phase"@])
                } else {
                    None
                }
                &&& ev->pct == if f.contains_key("pct"@) {
                    Some(f["pct"@])
                } else {
                    None
                }
                &&& ev->bytes == if f.contains_key("bytes"@) {
                    match parse_unsigned(f["bytes"@], u64::MAX as nat) {
                        Some(n) => Some(n as u64),
                        None => None,
                    }
                } else {
                    None
                }
                &&& ev->total == if f.contains_key("total"@) {
                    match parse_unsigned(f["total"@], u64::MAX as nat) {
                        Some(n) => Some(n as u64),
                        None => None,
                    }
                } else {
                    None
                }
            }
            &&& has_prefix_at(t, 0, "@error "@) ==> {
                let f = fields_of(t.skip(7));
                &&& ev is Error
                &&& ev->Error_message == if f.contains_key("msg"@) {
                    f["msg"@]
                } else {
                    t.skip(7)
                }
            }
        }),
{
    reveal_strlit("@status ");
    reveal_strlit("@progress ");
    reveal_strlit("@error ");
    let t = trim_seq(line);
    assert("@status "@.len() == 8 && "@status "@[1] == 's');
    assert("@progress "@.len() == 10 && "@progress "@[1] == 'p');
    assert("@error "@.len() == 7 && "@error "@[1] == 'e');
    if has_prefix_at(t, 0, "@status "@) {
        assert(t[1] == t.subrange(0, 8)[1]);
    }
    if has_prefix_at(t, 0, "@progress "@) {
        assert(t[1] == t.subrange(0, 10)[1]);
        assert(!has_prefix_at(t, 0, "@status "@));
    }
    if has_prefix_at(t, 0, "@error "@) {
        assert(t[1] == t.subrange(0, 7)[1]);
        assert(!has_prefix_at(t, 0, "@status "@));
        assert(!has_prefix_at(t, 0, "@progress "@));
    }
}

/// `@done ok` reports success and `@done <word>` reports success exactly when
/// the word is `ok` in any letter case; neither reports a cancel. A line
/// with none of the tags is passed on, trimmed, with its stream.
pub proof fn lemma_line_done_and_raw(stream: Seq<char>, line: Seq<char>)
    ensures
        ({
            let t = trim_seq(line);
            let ev = line_event(stream, line);
            &&& t == "@done ok"@ ==> ev == UiEvent::Done { success: true, cancelled: false }
            &&& has_prefix_at(t, 0, "@done "@) ==> ev == UiEvent::Done {
                success: eq_ignore_ascii_case_seq(t.skip(6), "ok"@),
                cancelled: false,
            }
            &&& !has_prefix_at(t, 0, "@status "@) && !has_prefix_at(t, 0, "@progress "@)
                && !has_prefix_at(t, 0, "@error "@) && !has_prefix_at(t, 0, "@done "@)
                && t != "@done ok"@ ==> ev == UiEvent::Raw { stream, line: t }
        }),
{
    reveal_strlit("@status ");
    reveal_strlit("@progress ");
    reveal_strlit("@error ");
    reveal_strlit("@done ");
    reveal_strlit("@done ok");
    reveal_strlit("ok");
    let t = trim_seq(line);
    assert("@status "@.len() == 8 && "@status "@[1] == 's');
    assert("@progress "@.len() == 10 && "@progress "@[1] == 'p');
    assert("@error "@.len() == 7 && "@error "@[1] == 'e');
    assert("@done "@.len() == 6 && "@done "@[1] == 'd');
    if has_prefix_at(t, 0, "@done "@) {
        assert(t[1] == t.subrange(0, 6)[1]);
        assert(!has_prefix_at(t, 0, "@status "@));
        assert(!has_prefix_at(t, 0, "@progress "@));
        assert(!has_prefix_at(t, 0, "@error "@));
        if t == "@done ok"@ {
            assert(t.skip(6) =~= "ok"@);
        }
    }
    if t == "@done ok"@ {
        assert(t.subrange(0, 6) =~= "@done "@);
    }
}

} // verus!
