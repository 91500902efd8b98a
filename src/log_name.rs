//! Names of operation log files and their order.
//!
//! A log is stored as `YYYY_MM_DD-HH_MM_SS.ffffff.log`, named after the UTC
//! time of the operation. Names compare character by character.

use vstd::prelude::*;
use crate::log::Timestamp;

verus! {

/// The pattern that log file names match.
pub const LOG_FILE_PATTERN: &'static str = "^[0-9]{4}(_[0-9]{2}){2}-([0-9]{2}_){2}([0-9]{2})\\.[0-9]{6}\\.log$";

/// An ASCII decimal digit.
pub open spec fn is_digit(c: char) -> bool {
    '0' <= c && c <= '9'
}

/// The character a log file name has at a position, or `None` where it has a digit.
pub open spec fn log_name_fixed_char(i: int) -> Option<char> {
    if i == 4 || i == 7 || i == 13 || i == 16 {
        Some('_')
    } else if i == 10 {
        Some('-')
    } else if i == 19 || i == 26 {
        Some('.')
    } else if i == 27 {
        Some('l')
    } else if i == 28 {
        Some('o')
    } else if i == 29 {
        Some('g')
    } else {
        None
    }
}

/// Whether a file name is that of an operation log:
/// `YYYY_MM_DD-HH_MM_SS.ffffff.log` with ASCII digits.
pub open spec fn is_log_file_name(s: Seq<char>) -> bool {
    &&& s.len() == 30
    &&& forall|i: int|
        0 <= i < 30 ==> match #[trigger] log_name_fixed_char(i) {
            Some(c) => s[i] == c,
            None => is_digit(s[i]),
        }
}

/// Relies on regex::Regex::new and regex::Regex::is_match: compiled from
/// `LOG_FILE_PATTERN`, which is anchored at both ends, the regex matches
/// exactly the names that `is_log_file_name` describes.
#[verifier::external_body]
fn regex_is_match(pattern: &str, name: &str) -> (r: bool)
    requires
        pattern@ == LOG_FILE_PATTERN@,
    ensures
        r == is_log_file_name(name@),
{
    match regex::Regex::new(pattern) {
        Ok(re) => re.is_match(name),
        Err(_) => false,
    }
}

/// Whether a file name is that of an operation log.
pub fn file_is_log(name: &str) -> (r: bool)
    ensures
        r == is_log_file_name(name@),
{
    regex_is_match(LOG_FILE_PATTERN, name)
}

/// Character-by-character order of strings: `a` comes before `b`.
pub open spec fn seq_lt(a: Seq<char>, b: Seq<char>) -> bool
    decreases a.len(),
{
    if a.len() == 0 {
        b.len() > 0
    } else if b.len() == 0 {
        false
    } else if a[0] != b[0] {
        a[0] < b[0]
    } else {
        seq_lt(a.drop_first(), b.drop_first())
    }
}

/// Of two different strings, one comes before the other, and not both ways.
pub proof fn lemma_seq_lt_total(a: Seq<char>, b: Seq<char>)
    ensures
        a != b ==> (seq_lt(a, b) || seq_lt(b, a)),
        !(seq_lt(a, b) && seq_lt(b, a)),
    decreases a.len(),
{
    if a.len() > 0 && b.len() > 0 && a[0] == b[0] {
        lemma_seq_lt_total(a.drop_first(), b.drop_first());
        if a != b {
            assert(a.drop_first() != b.drop_first()) by {
                if a.drop_first() == b.drop_first() {
                    assert(a =~= seq![a[0]] + a.drop_first());
                    assert(b =~= seq![b[0]] + b.drop_first());
                }
            }
        }
    } else if a.len() == 0 && b.len() == 0 {
        assert(a =~= b);
    }
}

/// The order of strings is transitive.
pub proof fn lemma_seq_lt_transitive(a: Seq<char>, b: Seq<char>, c: Seq<char>)
    requires
        seq_lt(a, b),
        seq_lt(b, c),
    ensures
        seq_lt(a, c),
    decreases a.len(),
{
    if a.len() > 0 && b.len() > 0 && c.len() > 0 && a[0] == b[0] && b[0] == c[0] {
        lemma_seq_lt_transitive(a.drop_first(), b.drop_first(), c.drop_first());
    }
}

/// Whether `a` comes before `b` in the order of names.
pub fn name_lt(a: &str, b: &str) -> (r: bool)
    ensures
        r == seq_lt(a@, b@),
{
    let na = a.unicode_len();
    let nb = b.unicode_len();
    let mut i: usize = 0;
    proof {
        assert(a@.skip(0) =~= a@);
        assert(b@.skip(0) =~= b@);
    }
    while i < na && i < nb
        invariant
            na == a@.len(),
            nb == b@.len(),
            i <= na,
            i <= nb,
            seq_lt(a@, b@) == seq_lt(a@.skip(i as int), b@.skip(i as int)),
        decreases na - i,
    {
        let ca = a.get_char(i);
        let cb = b.get_char(i);
        if ca != cb {
            return ca < cb;
        }
        proof {
            assert(a@.skip(i as int).drop_first() =~= a@.skip(i as int + 1));
            assert(b@.skip(i as int).drop_first() =~= b@.skip(i as int + 1));
        }
        i = i + 1;
    }
    i == na && i < nb
}

/// The value of a decimal digit.
pub open spec fn digit_value(c: char) -> int {
    c as int - '0' as int
}

/// The number that the digits of a string spell, other characters skipped.
pub open spec fn digits_value(s: Seq<char>) -> int
    decreases s.len(),
{
    if s.len() == 0 {
        0
    } else if is_digit(s.last()) {
        digits_value(s.drop_last()) * 10 + digit_value(s.last())
    } else {
        digits_value(s.drop_last())
    }
}

/// The time a log file name records, as the number `YYYYMMDDhhmmssffffff`.
pub open spec fn log_name_time(s: Seq<char>) -> int {
    digits_value(s)
}

/// Two strings of one length have digits at the same positions and the same
/// characters elsewhere.
pub open spec fn same_shape(a: Seq<char>, b: Seq<char>) -> bool {
    &&& a.len() == b.len()
    &&& forall|i: int| 0 <= i < a.len() ==> (is_digit(#[trigger] a[i]) <==> is_digit(b[i]))
    &&& forall|i: int| 0 <= i < a.len() && !is_digit(#[trigger] a[i]) ==> a[i] == b[i]
}

/// For strings of one length, the order is decided before the last
/// character, or by it when all before it are equal.
pub proof fn lemma_seq_lt_last(a: Seq<char>, b: Seq<char>)
    requires
        a.len() == b.len(),
        a.len() > 0,
    ensures
        seq_lt(a, b) == (seq_lt(a.drop_last(), b.drop_last()) || (a.drop_last() == b.drop_last() && a.last() < b.last())),
    decreases a.len(),
{
    if a.len() == 1 {
        assert(a.drop_last() =~= b.drop_last());
        assert(a.drop_first().len() == 0);
        assert(b.drop_first().len() == 0);
        assert(!seq_lt(a.drop_last(), b.drop_last()));
        assert(a.last() == a[0] && b.last() == b[0]);
        if a[0] == b[0] {
            assert(seq_lt(a, b) == seq_lt(a.drop_first(), b.drop_first()));
            assert(!seq_lt(a.drop_first(), b.drop_first()));
        }
    } else if a[0] != b[0] {
        assert(a.drop_last()[0] == a[0]);
        assert(b.drop_last()[0] == b[0]);
        assert(a.drop_last() != b.drop_last());
        assert(seq_lt(a.drop_last(), b.drop_last()) == (a[0] < b[0]));
    } else {
        lemma_seq_lt_last(a.drop_first(), b.drop_first());
        assert(a.drop_first().drop_last() =~= a.drop_last().drop_first());
        assert(b.drop_first().drop_last() =~= b.drop_last().drop_first());
        assert(a.drop_last()[0] == a[0]);
        assert(b.drop_last()[0] == b[0]);
        assert(seq_lt(a.drop_last(), b.drop_last()) == seq_lt(a.drop_last().drop_first(), b.drop_last().drop_first()));
        assert(a.drop_first().last() == a.last());
        assert(b.drop_first().last() == b.last());
        assert(seq_lt(a, b) == seq_lt(a.drop_first(), b.drop_first()));
        if a.drop_last().drop_first() == b.drop_last().drop_first() {
            assert(a.drop_last() =~= b.drop_last()) by {
                assert forall|i: int| 0 <= i < a.drop_last().len() implies a.drop_last()[i] == b.drop_last()[i] by {
                    if i > 0 {
                        assert(a.drop_last()[i] == a.drop_last().drop_first()[i - 1]);
                        assert(b.drop_last()[i] == b.drop_last().drop_first()[i - 1]);
                    }
                }
            }
        }
        if a.drop_last() == b.drop_last() {
            assert(a.drop_last().drop_first() =~= b.drop_last().drop_first());
        }
    }
}

/// For strings of the same shape, the order of the strings is the order of
/// the numbers their digits spell, and equal numbers mean equal strings.
pub proof fn lemma_same_shape_order(a: Seq<char>, b: Seq<char>)
    requires
        same_shape(a, b),
    ensures
        seq_lt(a, b) == (digits_value(a) < digits_value(b)),
        (a == b) == (digits_value(a) == digits_value(b)),
    decreases a.len(),
{
    if a.len() == 0 {
        assert(a =~= b);
    } else {
        let a0 = a.drop_last();
        let b0 = b.drop_last();
        assert(same_shape(a0, b0)) by {
            assert forall|i: int| 0 <= i < a0.len() implies (is_digit(#[trigger] a0[i]) <==> is_digit(b0[i])) by {
                assert(a0[i] == a[i] && b0[i] == b[i]);
            }
            assert forall|i: int| 0 <= i < a0.len() && !is_digit(#[trigger] a0[i]) implies a0[i] == b0[i] by {
                assert(a0[i] == a[i] && b0[i] == b[i]);
            }
        }
        lemma_same_shape_order(a0, b0);
        lemma_seq_lt_last(a, b);
        let n = a.len() - 1;
        assert(a.last() == a[n] && b.last() == b[n]);
        assert(a =~= a0.push(a.last()));
        assert(b =~= b0.push(b.last()));
        if a == b {
            assert(a0 =~= b0);
        }
    }
}

/// Valid log file names have the same shape.
pub proof fn lemma_log_names_same_shape(a: Seq<char>, b: Seq<char>)
    requires
        is_log_file_name(a),
        is_log_file_name(b),
    ensures
        same_shape(a, b),
{
    assert forall|i: int| 0 <= i < a.len() implies (is_digit(#[trigger] a[i]) <==> is_digit(b[i])) by {
        assert(log_name_fixed_char(i) == log_name_fixed_char(i));
    }
    assert forall|i: int| 0 <= i < a.len() && !is_digit(#[trigger] a[i]) implies a[i] == b[i] by {
        assert(log_name_fixed_char(i) == log_name_fixed_char(i));
    }
}

/// For two valid log file names, one comes before the other exactly when its
/// time is earlier; names with equal times are equal.
pub proof fn lemma_log_name_order_is_time_order(a: Seq<char>, b: Seq<char>)
    requires
        is_log_file_name(a),
        is_log_file_name(b),
    ensures
        seq_lt(a, b) == (log_name_time(a) < log_name_time(b)),
        (a == b) == (log_name_time(a) == log_name_time(b)),
{
    lemma_log_names_same_shape(a, b);
    lemma_same_shape_order(a, b);
}

/// Ten to the power `n`.
pub open spec fn pow10(n: nat) -> nat
    decreases n,
{
    if n == 0 {
        1
    } else {
        10 * pow10((n - 1) as nat)
    }
}

/// The number `YYYYMMDDhhmmssffffff` of a timestamp.
pub open spec fn time_number(f: (u16, u8, u8, u8, u8, u8, u32)) -> int {
    (((((f.0 as int * 100 + f.1 as int) * 100 + f.2 as int) * 100 + f.3 as int) * 100 + f.4 as int) * 100
        + f.5 as int) * 1_000_000 + f.6 as int
}

/// Field by field, most significant first, `a` comes before `b`.
pub open spec fn fields_lt(a: (u16, u8, u8, u8, u8, u8, u32), b: (u16, u8, u8, u8, u8, u8, u32)) -> bool {
    ||| a.0 < b.0
    ||| a.0 == b.0 && a.1 < b.1
    ||| a.0 == b.0 && a.1 == b.1 && a.2 < b.2
    ||| a.0 == b.0 && a.1 == b.1 && a.2 == b.2 && a.3 < b.3
    ||| a.0 == b.0 && a.1 == b.1 && a.2 == b.2 && a.3 == b.3 && a.4 < b.4
    ||| a.0 == b.0 && a.1 == b.1 && a.2 == b.2 && a.3 == b.3 && a.4 == b.4 && a.5 < b.5
    ||| a.0 == b.0 && a.1 == b.1 && a.2 == b.2 && a.3 == b.3 && a.4 == b.4 && a.5 == b.5 && a.6 < b.6
}

/// The number of a timestamp orders timestamps as their fields do.
pub proof fn lemma_time_number_order(a: Timestamp, b: Timestamp)
    requires
        Timestamp::valid_fields(a.fields().0, a.fields().1, a.fields().2, a.fields().3, a.fields().4, a.fields().5, a.fields().6),
        Timestamp::valid_fields(b.fields().0, b.fields().1, b.fields().2, b.fields().3, b.fields().4, b.fields().5, b.fields().6),
    ensures
        (time_number(a.fields()) < time_number(b.fields())) == fields_lt(a.fields(), b.fields()),
{
}

/// The digit character of a number below ten.
fn digit_str(d: u32) -> (r: &'static str)
    requires
        d < 10,
    ensures
        r@.len() == 1,
        is_digit(r@[0]),
        digit_value(r@[0]) == d,
{
    proof {
        reveal_strlit("0");
        reveal_strlit("1");
        reveal_strlit("2");
        reveal_strlit("3");
        reveal_strlit("4");
        reveal_strlit("5");
        reveal_strlit("6");
        reveal_strlit("7");
        reveal_strlit("8");
        reveal_strlit("9");
    }
    match d {
        0 => "0",
        1 => "1",
        2 => "2",
        3 => "3",
        4 => "4",
        5 => "5",
        6 => "6",
        7 => "7",
        8 => "8",
        _ => "9",
    }
}

/// Appending one character that is not a digit keeps the number.
proof fn lemma_digits_value_push_other(s: Seq<char>, c: char)
    requires
        !is_digit(c),
    ensures
        digits_value(s.push(c)) == digits_value(s),
{
    assert(s.push(c).drop_last() == s);
}

/// Appends `v` as `width` digits, with leading zeros.
fn push_digits(s: &mut String, v: u32, width: u32)
    requires
        v < pow10(width as nat),
        width <= 6,
    ensures
        final(s)@.len() == old(s)@.len() + width,
        final(s)@.subrange(0, old(s)@.len() as int) == old(s)@,
        forall|i: int| old(s)@.len() <= i < final(s)@.len() ==> is_digit(#[trigger] final(s)@[i]),
        digits_value(final(s)@) == digits_value(old(s)@) * pow10(width as nat) + v,
    decreases width,
{
    if width == 0 {
        proof {
            assert(s@.subrange(0, s@.len() as int) =~= s@);
        }
        return;
    }
    let ghost s0 = s@;
    proof {
        assert(pow10(width as nat) == 10 * pow10((width - 1) as nat));
        assert(v / 10 < pow10((width - 1) as nat)) by (nonlinear_arith)
            requires
                v < 10 * pow10((width - 1) as nat),
        ;
    }
    push_digits(s, v / 10, width - 1);
    let ghost s1 = s@;
    let d = digit_str(v % 10);
    s.append(d);
    proof {
        assert(s@ == s1 + d@);
        assert(s@ =~= s1.push(d@[0]));
        assert(s@.drop_last() == s1);
        assert(digits_value(s@) == digits_value(s1) * 10 + (v % 10) as int);
        let p = pow10((width - 1) as nat) as int;
        let x = digits_value(s0);
        assert(digits_value(s1) == x * p + (v / 10) as int);
        assert((x * p + (v / 10) as int) * 10 + (v % 10) as int == x * (10 * p) + v) by (nonlinear_arith)
            requires
                v as int == (v / 10) as int * 10 + (v % 10) as int,
        ;
        assert(s@.subrange(0, s0.len() as int) =~= s0) by {
            assert(s1.subrange(0, s0.len() as int) == s0);
        }
        assert forall|i: int| s0.len() <= i < s@.len() implies is_digit(#[trigger] s@[i]) by {
            if i < s1.len() {
                assert(s@[i] == s1[i]);
            }
        }
    }
}

/// The first `n` characters of a log file name are in place.
pub open spec fn layout_ok(s: Seq<char>, n: int) -> bool {
    &&& s.len() == n
    &&& forall|i: int|
        0 <= i < n ==> match #[trigger] log_name_fixed_char(i) {
            Some(c) => s[i] == c,
            None => is_digit(s[i]),
        }
}

proof fn lemma_layout_digits(old: Seq<char>, new: Seq<char>, n: int, w: int)
    requires
        0 <= n,
        0 <= w,
        layout_ok(old, n),
        new.len() == n + w,
        new.subrange(0, n) == old,
        forall|i: int| n <= i < n + w ==> is_digit(#[trigger] new[i]),
        forall|i: int| n <= i < n + w ==> #[trigger] log_name_fixed_char(i) is None,
    ensures
        layout_ok(new, n + w),
{
    assert forall|i: int| 0 <= i < n + w implies match #[trigger] log_name_fixed_char(i) {
        Some(c) => new[i] == c,
        None => is_digit(new[i]),
    } by {
        if i < n {
            assert(new[i] == new.subrange(0, n)[i]);
        }
    }
}

proof fn lemma_layout_separator(old: Seq<char>, c: char, n: int)
    requires
        layout_ok(old, n),
        log_name_fixed_char(n) == Some(c),
    ensures
        layout_ok(old.push(c), n + 1),
{
    assert forall|i: int| 0 <= i < n + 1 implies match #[trigger] log_name_fixed_char(i) {
        Some(x) => old.push(c)[i] == x,
        None => is_digit(old.push(c)[i]),
    } by {
        if i < n {
            assert(old.push(c)[i] == old[i]);
        }
    }
}

/// Appends one character that is not a digit, given as a one-character string.
fn push_separator(s: &mut String, sep: &str)
    requires
        sep@.len() == 1,
        !is_digit(sep@[0]),
    ensures
        final(s)@ == old(s)@.push(sep@[0]),
        digits_value(final(s)@) == digits_value(old(s)@),
{
    s.append(sep);
    proof {
        assert(s@ =~= old(s)@.push(sep@[0]));
        lemma_digits_value_push_other(old(s)@, sep@[0]);
    }
}

impl Timestamp {
    /// The name of the log file of an operation at this time:
    /// `YYYY_MM_DD-HH_MM_SS.ffffff.log`.
    pub fn log_file_name(&self) -> (r: String)
        ensures
            is_log_file_name(r@),
            log_name_time(r@) == time_number(self.fields()),
    {
        let (year, month, day, hour, minute, second, micro) = self.to_fields();
        proof {
            reveal_strlit("_");
            reveal_strlit("-");
            reveal_strlit(".");
            reveal_strlit("l");
            reveal_strlit("o");
            reveal_strlit("g");
            reveal_with_fuel(pow10, 7);
            assert(pow10(2) == 100);
            assert(pow10(4) == 10000);
            assert(pow10(6) == 1000000);
        }
        let mut s = String::new();
        proof {
            assert(layout_ok(s@, 0));
            assert(digits_value(s@) == 0);
        }
        let ghost before = s@;
        push_digits(&mut s, year as u32, 4);
        proof {
            lemma_layout_digits(before, s@, 0, 4);
        }
        let ghost before = s@;
        push_separator(&mut s, "_");
        proof {
            lemma_layout_separator(before, '_', 4);
        }
        let ghost before = s@;
        push_digits(&mut s, month as u32, 2);
        proof {
            lemma_layout_digits(before, s@, 5, 2);
        }
        let ghost before = s@;
        push_separator(&mut s, "_");
        proof {
            lemma_layout_separator(before, '_', 7);
        }
        let ghost before = s@;
        push_digits(&mut s, day as u32, 2);
        proof {
            lemma_layout_digits(before, s@, 8, 2);
        }
        let ghost before = s@;
        push_separator(&mut s, "-");
        proof {
            lemma_layout_separator(before, '-', 10);
        }
        let ghost before = s@;
        push_digits(&mut s, hour as u32, 2);
        proof {
            lemma_layout_digits(before, s@, 11, 2);
        }
        let ghost before = s@;
        push_separator(&mut s, "_");
        proof {
            lemma_layout_separator(before, '_', 13);
        }
        let ghost before = s@;
        push_digits(&mut s, minute as u32, 2);
        proof {
            lemma_layout_digits(before, s@, 14, 2);
        }
        let ghost before = s@;
        push_separator(&mut s, "_");
        proof {
            lemma_layout_separator(before, '_', 16);
        }
        let ghost before = s@;
        push_digits(&mut s, second as u32, 2);
        proof {
            lemma_layout_digits(before, s@, 17, 2);
        }
        let ghost before = s@;
        push_separator(&mut s, ".");
        proof {
            lemma_layout_separator(before, '.', 19);
        }
        let ghost before = s@;
        push_digits(&mut s, micro, 6);
        proof {
            lemma_layout_digits(before, s@, 20, 6);
        }
        let ghost before = s@;
        push_separator(&mut s, ".");
        proof {
            lemma_layout_separator(before, '.', 26);
        }
        let ghost before = s@;
        push_separator(&mut s, "l");
        proof {
            lemma_layout_separator(before, 'l', 27);
        }
        let ghost before = s@;
        push_separator(&mut s, "o");
        proof {
            lemma_layout_separator(before, 'o', 28);
        }
        let ghost before = s@;
        push_separator(&mut s, "g");
        proof {
            lemma_layout_separator(before, 'g', 29);
        }
        proof {
            assert(s@.len() == 30);
        }
        s
    }
}

/// Log files named after two valid timestamps come in the order of the
/// timestamps: one name precedes the other exactly when its time is earlier.
pub proof fn lemma_log_file_names_follow_time(a: Timestamp, b: Timestamp, name_a: Seq<char>, name_b: Seq<char>)
    requires
        Timestamp::valid_fields(a.fields().0, a.fields().1, a.fields().2, a.fields().3, a.fields().4, a.fields().5, a.fields().6),
        Timestamp::valid_fields(b.fields().0, b.fields().1, b.fields().2, b.fields().3, b.fields().4, b.fields().5, b.fields().6),
        is_log_file_name(name_a),
        is_log_file_name(name_b),
        log_name_time(name_a) == time_number(a.fields()),
        log_name_time(name_b) == time_number(b.fields()),
    ensures
        seq_lt(name_a, name_b) == fields_lt(a.fields(), b.fields()),
{
    lemma_log_name_order_is_time_order(name_a, name_b);
    lemma_time_number_order(a, b);
}

} // verus!
