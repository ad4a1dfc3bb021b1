//! Rendering of Unix permission words and modification times for directory
//! listings.

use vstd::prelude::*;
use vstd::string::*;
use crate::strutil::digit_char;

verus! {

/// The file-type character of a Unix mode word: `d` directory, `l` symbolic
/// link, `-` regular file, `b`/`c` device, `p` fifo, `s` socket, `?` unknown.
pub open spec fn file_type_char(mode: u32) -> char {
    let t = mode & 0o170000;
    if t == 0o040000 {
        'd'
    } else if t == 0o120000 {
        'l'
    } else if t == 0o100000 {
        '-'
    } else if t == 0o060000 {
        'b'
    } else if t == 0o020000 {
        'c'
    } else if t == 0o010000 {
        'p'
    } else if t == 0o140000 {
        's'
    } else {
        '?'
    }
}

/// `c` when the permission bit is set in `mode`, `-` otherwise.
pub open spec fn perm_char(mode: u32, bit: u32, c: char) -> char {
    if mode & bit != 0 {
        c
    } else {
        '-'
    }
}

/// The fixed 10-character permission string of a mode word: the file-type
/// character followed by the three `rwx` triplets for owner, group, other.
pub open spec fn mode_chars(mode: u32) -> Seq<char> {
    seq![
        file_type_char(mode),
        perm_char(mode, 0o400, 'r'),
        perm_char(mode, 0o200, 'w'),
        perm_char(mode, 0o100, 'x'),
        perm_char(mode, 0o040, 'r'),
        perm_char(mode, 0o020, 'w'),
        perm_char(mode, 0o010, 'x'),
        perm_char(mode, 0o004, 'r'),
        perm_char(mode, 0o002, 'w'),
        perm_char(mode, 0o001, 'x'),
    ]
}

fn append_perm(s: &mut String, on: bool, c: &str)
    ensures
        final(s)@ == old(s)@ + (if on {
            c@
        } else {
            "-"@
        }),
{
    if on {
        s.append(c);
    } else {
        s.append("-");
    }
}

/// Renders a mode word as the 10-character permission string of `ls -l`.
pub fn format_mode(mode: u32) -> (r: String)
    ensures
        r@ == mode_chars(mode),
{
    let mut r = String::new();
    let t = mode & 0o170000;
    let type_str: &str = if t == 0o040000 {
        "d"
    } else if t == 0o120000 {
        "l"
    } else if t == 0o100000 {
        "-"
    } else if t == 0o060000 {
        "b"
    } else if t == 0o020000 {
        "c"
    } else if t == 0o010000 {
        "p"
    } else if t == 0o140000 {
        "s"
    } else {
        "?"
    };
    r.append(type_str);
    append_perm(&mut r, mode & 0o400 != 0, "r");
    append_perm(&mut r, mode & 0o200 != 0, "w");
    append_perm(&mut r, mode & 0o100 != 0, "x");
    append_perm(&mut r, mode & 0o040 != 0, "r");
    append_perm(&mut r, mode & 0o020 != 0, "w");
    append_perm(&mut r, mode & 0o010 != 0, "x");
    append_perm(&mut r, mode & 0o004 != 0, "r");
    append_perm(&mut r, mode & 0o002 != 0, "w");
    append_perm(&mut r, mode & 0o001 != 0, "x");
    proof {
        reveal_strlit("d");
        reveal_strlit("l");
        reveal_strlit("-");
        reveal_strlit("b");
        reveal_strlit("c");
        reveal_strlit("p");
        reveal_strlit("s");
        reveal_strlit("?");
        reveal_strlit("r");
        reveal_strlit("w");
        reveal_strlit("x");
        assert(r@ =~= mode_chars(mode));
    }
    r
}

/// Whether any execute bit of the mode word is set.
pub fn is_executable(mode: u32) -> (r: bool)
    ensures
        r == (mode & 0o111 != 0),
{
    mode & 0o111 != 0
}

/// The timestamp reinterpreted as an unsigned count of seconds, as the
/// two's-complement bits of the signed value read unsigned.
pub open spec fn time_secs(t: i64) -> u64 {
    if t >= 0 {
        t as u64
    } else {
        ((t as int) + 0x1_0000_0000_0000_0000) as u64
    }
}

/// The `HH:MM` rendering of a timestamp: hours and minutes of the day,
/// each as two zero-padded decimal digits.
pub open spec fn time_chars(t: i64) -> Seq<char> {
    let secs = time_secs(t);
    let hours = ((secs % 86400) / 3600) as u64;
    let minutes = ((secs % 3600) / 60) as u64;
    seq![
        digit_char((hours / 10) as u64),
        digit_char((hours % 10) as u64),
        ':',
        digit_char((minutes / 10) as u64),
        digit_char((minutes % 10) as u64),
    ]
}

fn two_digit_string(n: u64) -> (r: String)
    requires
        n < 100,
    ensures
        r@ == seq![digit_char((n / 10) as u64), digit_char((n % 10) as u64)],
{
    let mut r = String::new();
    r.append(crate::strutil::digit_str(n / 10));
    r.append(crate::strutil::digit_str(n % 10));
    proof {
        assert(r@ =~= seq![digit_char((n / 10) as u64), digit_char((n % 10) as u64)]);
    }
    r
}

/// Renders a modification timestamp as `HH:MM` (hours and minutes of the
/// day, seconds-since-epoch arithmetic).
pub fn format_time(timestamp: i64) -> (r: String)
    ensures
        r@ == time_chars(timestamp),
{
    let secs: u64 = if timestamp >= 0 {
        timestamp as u64
    } else {
        let below_max = (-(timestamp + 1)) as u64;
        u64::MAX - below_max
    };
    proof {
        assert(secs == time_secs(timestamp));
    }
    let hours = (secs % 86400) / 3600;
    let minutes = (secs % 3600) / 60;
    let mut r = two_digit_string(hours);
    r.append(":");
    let back = two_digit_string(minutes);
    r.append(back.as_str());
    proof {
        reveal_strlit(":");
        assert(r@ =~= time_chars(timestamp));
    }
    r
}

} // verus!
