//! Text formatting for the log panel: timestamps to second precision.

use vstd::prelude::*;

use vstd::string::StringExecFns;

use crate::store::{LogEntry, LogView};

verus! {

/// The decimal digit character for `d` (digits ten and above never arise).
pub open spec fn digit_char(d: int) -> char {
    if d == 0 {
        '0'
    } else if d == 1 {
        '1'
    } else if d == 2 {
        '2'
    } else if d == 3 {
        '3'
    } else if d == 4 {
        '4'
    } else if d == 5 {
        '5'
    } else if d == 6 {
        '6'
    } else if d == 7 {
        '7'
    } else if d == 8 {
        '8'
    } else {
        '9'
    }
}

/// Two-digit zero-padded decimal image of `v`, for `v < 100`.
pub open spec fn two_digits(v: int) -> Seq<char> {
    seq![digit_char(v / 10), digit_char(v % 10)]
}

/// The `HH:MM:SS` image (UTC time of day) of a timestamp in whole seconds
/// since the Unix epoch.
pub open spec fn hms_seq(t: u64) -> Seq<char> {
    two_digits(((t as int) / 3600) % 24) + seq![':'] + two_digits(((t as int) / 60) % 60)
        + seq![':'] + two_digits((t as int) % 60)
}

/// The log panel line for one entry: `[HH:MM:SS] message`.
pub open spec fn log_line_seq(l: LogView) -> Seq<char> {
    seq!['['] + hms_seq(l.timestamp) + seq![']', ' '] + l.message
}

/// The one-character decimal literal for a digit.
fn digit_str(d: u64) -> (r: &'static str)
    requires
        d < 10,
    ensures
        r@ == seq![digit_char(d as int)],
{
    proof {
        reveal_strlit("0");
        reveal_strlit("1");
        reveal_strlit("2");
        reveal_strlit("3");
        reveal_strlit("4");
        reveal_strlit("5");
        reveal_strlit("6");
        reveal_strlit("7");
        reveal_strlit("8");
        reveal_strlit("9");
    }
    if d == 0 {
        proof {
            assert("0"@ =~= seq![digit_char(0)]);
        }
        "0"
    } else if d == 1 {
        proof {
            assert("1"@ =~= seq![digit_char(1)]);
        }
        "1"
    } else if d == 2 {
        proof {
            assert("2"@ =~= seq![digit_char(2)]);
        }
        "2"
    } else if d == 3 {
        proof {
            assert("3"@ =~= seq![digit_char(3)]);
        }
        "3"
    } else if d == 4 {
        proof {
            assert("4"@ =~= seq![digit_char(4)]);
        }
        "4"
    } else if d == 5 {
        proof {
            assert("5"@ =~= seq![digit_char(5)]);
        }
        "5"
    } else if d == 6 {
        proof {
            assert("6"@ =~= seq![digit_char(6)]);
        }
        "6"
    } else if d == 7 {
        proof {
            assert("7"@ =~= seq![digit_char(7)]);
        }
        "7"
    } else if d == 8 {
        proof {
            assert("8"@ =~= seq![digit_char(8)]);
        }
        "8"
    } else {
        proof {
            assert("9"@ =~= seq![digit_char(9)]);
        }
        "9"
    }
}

/// Appends the two-digit zero-padded decimal image of `v`.
fn push_two_digits(s: &mut String, v: u64)
    requires
        v < 100,
    ensures
        final(s)@ == old(s)@ + two_digits(v as int),
{
    let d1 = digit_str(v / 10);
    let d2 = digit_str(v % 10);
    s.append(d1);
    s.append(d2);
    proof {
        assert(s@ =~= old(s)@ + two_digits(v as int));
    }
}

/// Formats one log entry for the log panel: `[HH:MM:SS] message`, the
/// timestamp to second precision.
pub fn format_log_line(e: &LogEntry) -> (r: String)
    ensures
        r@ == log_line_seq(e@),
{
    let t = e.timestamp;
    let h = (t / 3600) % 24;
    let m = (t / 60) % 60;
    let sec = t % 60;
    let mut s = "[".to_owned();
    push_two_digits(&mut s, h);
    s.append(":");
    push_two_digits(&mut s, m);
    s.append(":");
    push_two_digits(&mut s, sec);
    s.append("] ");
    s.append(e.message.as_str());
    proof {
        reveal_strlit("[");
        reveal_strlit(":");
        reveal_strlit("] ");
        assert(s@ =~= log_line_seq(e@));
    }
    s
}

} // verus!
