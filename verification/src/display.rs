//! The text and the colour shown for a target.
use vstd::prelude::*;
use vstd::string::{StrSliceExecFns, StringExecFns};

verus! {

/// The character of the decimal digit `d`.
pub open spec fn digit_char(d: nat) -> char {
    (48 + d) as char
}

/// The decimal representation of `n`: its digits, most significant first,
/// without leading zeros (a single `0` for zero).
pub open spec fn decimal(n: nat) -> Seq<char>
    decreases n,
{
    if n < 10 {
        seq![digit_char(n)]
    } else {
        decimal(n / 10).push(digit_char(n % 10))
    }
}

/// The text shown for an optional number: its decimal digits, or `---`
/// when there is none.
pub open spec fn number_or_dashes(n: Option<u32>) -> Seq<char> {
    match n {
        Some(r) => decimal(r as nat),
        None => seq!['-', '-', '-'],
    }
}

fn digit_str(d: u32) -> (s: &'static str)
    requires
        d < 10,
    ensures
        s@ == seq![digit_char(d as nat)],
{
    proof {
        reveal_strlit("0");
        reveal_strlit("1");
        reveal_strlit("2");
        reveal_strlit("3");
        reveal_strlit("4");
        reveal_strlit("5");
        reveal_strlit("6");
        reveal_strlit("7");
        reveal_strlit("8");
        reveal_strlit("9");
    }
    let s = match d {
        0 => "0",
        1 => "1",
        2 => "2",
        3 => "3",
        4 => "4",
        5 => "5",
        6 => "6",
        7 => "7",
        8 => "8",
        _ => "9",
    };
    proof {
        assert(s@ =~= seq![digit_char(d as nat)]);
    }
    s
}

fn push_decimal(s: &mut String, n: u32)
    ensures
        final(s)@ == old(s)@ + decimal(n as nat),
    decreases n,
{
    if n >= 10 {
        push_decimal(s, n / 10);
    }
    s.append(digit_str(n % 10));
    proof {
        if n >= 10 {
            assert(decimal(n as nat) == decimal((n / 10) as nat).push(digit_char((n % 10) as nat)));
            assert(final(s)@ =~= old(s)@ + decimal(n as nat));
        } else {
            assert(old(s)@ + decimal(n as nat) =~= old(s)@ + seq![digit_char(n as nat)]);
        }
    }
}

/// helper function to simplify displaying option numbers
pub fn n_o_d(n: Option<u32>) -> (text: String)
    ensures
        text@ == number_or_dashes(n),
{
    match n {
        Some(r) => {
            let mut text = String::new();
            push_decimal(&mut text, r);
            proof {
                assert(text@ =~= decimal(r as nat));
            }
            text
        },
        None => {
            proof {
                reveal_strlit("---");
            }
            let text = String::from_str("---");
            proof {
                assert(text@ =~= seq!['-', '-', '-']);
            }
            text
        },
    }
}

/// `n` spaces.
pub open spec fn spaces(n: nat) -> Seq<char> {
    Seq::new(n, |i: int| ' ')
}

/// `s` left-aligned in a field of `width` characters: followed by spaces up
/// to the width, unchanged when it is at least that wide.
pub open spec fn align_left(s: Seq<char>, width: nat) -> Seq<char> {
    if s.len() >= width {
        s
    } else {
        s + spaces((width - s.len()) as nat)
    }
}

/// `s` centred in a field of `width` characters: the padding split in two,
/// the smaller half (when it is odd) before; unchanged when it is at least
/// that wide.
pub open spec fn align_center(s: Seq<char>, width: nat) -> Seq<char> {
    if s.len() >= width {
        s
    } else {
        let pad = (width - s.len()) as nat;
        spaces(pad / 2) + s + spaces((pad - pad / 2) as nat)
    }
}

/// `c` holds `s` after `before` spaces, followed by as many spaces or one
/// more, and nothing else.
pub open spec fn centred_at(c: Seq<char>, s: Seq<char>, before: nat) -> bool {
    &&& before + s.len() <= c.len()
    &&& (c.len() - (before + s.len()) == before || c.len() - (before + s.len()) == before + 1)
    &&& c.subrange(before as int, (before + s.len()) as int) == s
    &&& forall|i: int|
        0 <= i < c.len() && !(before <= i < before + s.len()) ==> #[trigger] c[i] == ' '
}

/// Law: aligning a text in a field keeps the text, adds only spaces, and
/// makes it exactly as wide as the field unless it is wider already; when
/// centred, the spaces before are the same number as after or one fewer.
pub proof fn lemma_alignment(s: Seq<char>, width: nat)
    ensures
        align_left(s, width).len() == if s.len() >= width { s.len() } else { width },
        align_left(s, width).subrange(0, s.len() as int) == s,
        forall|i: int|
            s.len() <= i < align_left(s, width).len() ==> #[trigger] align_left(s, width)[i]
                == ' ',
        align_center(s, width).len() == if s.len() >= width { s.len() } else { width },
        exists|before: nat| #[trigger] centred_at(align_center(s, width), s, before),
{
    let l = align_left(s, width);
    assert(l.subrange(0, s.len() as int) =~= s);
    let c = align_center(s, width);
    if s.len() >= width {
        assert(c.subrange(0, s.len() as int) =~= s);
        assert(c.len() - (0 + s.len()) == 0);
        assert(centred_at(c, s, 0));
    } else {
        let pad = (width - s.len()) as nat;
        let b = pad / 2;
        assert(c.subrange(b as int, (b + s.len()) as int) =~= s);
        assert forall|i: int| 0 <= i < c.len() && !(b <= i < b + s.len()) implies #[trigger] c[i]
            == ' ' by {
            if i < b {
                assert(c[i] == spaces(b)[i]);
            } else {
                assert(c[i] == spaces((pad - b) as nat)[i - b - s.len()]);
            }
        }
        assert(c.len() - (b + s.len()) == pad - b);
        assert(centred_at(c, s, b));
    }
}

/// The line with the RTT statistics of a target:
/// `rtt: LAST  min/max/avg: MIN/MAX/AVG`, the last RTT left-aligned and the
/// others centred in fields of five characters.
pub open spec fn rtt_line(
    last: Option<u32>,
    min: Option<u32>,
    max: Option<u32>,
    avg: Option<u32>,
) -> Seq<char> {
    seq!['r', 't', 't', ':', ' '] + align_left(number_or_dashes(last), 5) + seq![
        ' ',
        'm',
        'i',
        'n',
        '/',
        'm',
        'a',
        'x',
        '/',
        'a',
        'v',
        'g',
        ':',
        ' ',
    ] + align_center(number_or_dashes(min), 5) + seq!['/'] + align_center(
        number_or_dashes(max),
        5,
    ) + seq!['/'] + align_center(number_or_dashes(avg), 5)
}

/// The line with the error counts of a target: `err_t: TOTAL err_r: RECENT`,
/// both centred in fields of five characters.
pub open spec fn error_line(total: u32, recent: u32) -> Seq<char> {
    seq!['e', 'r', 'r', '_', 't', ':', ' '] + align_center(decimal(total as nat), 5) + seq![
        ' ',
        'e',
        'r',
        'r',
        '_',
        'r',
        ':',
        ' ',
    ] + align_center(decimal(recent as nat), 5)
}

fn push_spaces(s: &mut String, n: usize)
    ensures
        final(s)@ == old(s)@ + spaces(n as nat),
{
    let mut i: usize = 0;
    while i < n
        invariant
            0 <= i <= n,
            s@ == old(s)@ + spaces(i as nat),
        decreases n - i,
    {
        proof {
            reveal_strlit(" ");
        }
        s.append(" ");
        i = i + 1;
        proof {
            assert(s@ =~= old(s)@ + spaces(i as nat));
        }
    }
}

fn push_left(s: &mut String, field: &String, width: usize)
    ensures
        final(s)@ == old(s)@ + align_left(field@, width as nat),
{
    let len = field.as_str().unicode_len();
    s.append(field.as_str());
    if len < width {
        push_spaces(s, width - len);
    }
    proof {
        assert(final(s)@ =~= old(s)@ + align_left(field@, width as nat));
    }
}

fn push_center(s: &mut String, field: &String, width: usize)
    ensures
        final(s)@ == old(s)@ + align_center(field@, width as nat),
{
    let len = field.as_str().unicode_len();
    if len < width {
        let pad = width - len;
        push_spaces(s, pad / 2);
        s.append(field.as_str());
        push_spaces(s, pad - pad / 2);
    } else {
        s.append(field.as_str());
    }
    proof {
        assert(final(s)@ =~= old(s)@ + align_center(field@, width as nat));
    }
}

/// The line with the RTT statistics of a target.
pub fn rtt_summary(last: Option<u32>, min: Option<u32>, max: Option<u32>, avg: Option<u32>) -> (line: String)
    ensures
        line@ == rtt_line(last, min, max, avg),
{
    proof {
        reveal_strlit("rtt: ");
        reveal_strlit(" min/max/avg: ");
        reveal_strlit("/");
    }
    let mut line = String::from_str("rtt: ");
    push_left(&mut line, &n_o_d(last), 5);
    line.append(" min/max/avg: ");
    push_center(&mut line, &n_o_d(min), 5);
    line.append("/");
    push_center(&mut line, &n_o_d(max), 5);
    line.append("/");
    push_center(&mut line, &n_o_d(avg), 5);
    proof {
        assert(line@ =~= rtt_line(last, min, max, avg));
    }
    line
}

/// The line with the error counts of a target.
pub fn error_summary(total: u32, recent: u32) -> (line: String)
    ensures
        line@ == error_line(total, recent),
{
    proof {
        reveal_strlit("err_t: ");
        reveal_strlit(" err_r: ");
    }
    let mut total_text = String::new();
    push_decimal(&mut total_text, total);
    let mut recent_text = String::new();
    push_decimal(&mut recent_text, recent);
    let mut line = String::from_str("err_t: ");
    push_center(&mut line, &total_text, 5);
    line.append(" err_r: ");
    push_center(&mut line, &recent_text, 5);
    proof {
        assert(total_text@ =~= decimal(total as nat));
        assert(recent_text@ =~= decimal(recent as nat));
        assert(line@ =~= error_line(total, recent));
    }
    line
}

/// The number that a sequence of decimal digits denotes, most significant
/// first.
pub open spec fn decimal_value(s: Seq<char>) -> int
    decreases s.len(),
{
    if s.len() == 0 {
        0
    } else {
        decimal_value(s.drop_last()) * 10 + (s.last() as int - 48)
    }
}

/// Law: the decimal text of `n` consists of digits only, starts with a
/// non-zero digit unless `n` is zero (then it is the single digit `0`), and
/// denotes `n`.
pub proof fn lemma_decimal_denotes(n: nat)
    ensures
        decimal_value(decimal(n)) == n,
        decimal(n).len() > 0,
        forall|i: int| 0 <= i < decimal(n).len() ==> '0' <= #[trigger] decimal(n)[i] <= '9',
        n == 0 <==> decimal(n) == seq!['0'],
        n > 0 ==> decimal(n)[0] != '0',
    decreases n,
{
    if n < 10 {
        assert(decimal(n) =~= seq![digit_char(n)]);
        assert(seq![digit_char(n)].drop_last() =~= Seq::<char>::empty());
        assert(decimal_value(Seq::<char>::empty()) == 0);
        assert(digit_char(n) as int == 48 + n);
        if n == 0 {
            assert(digit_char(0) == '0');
        } else {
            assert(decimal(n)[0] != '0');
        }
    } else {
        lemma_decimal_denotes(n / 10);
        let d = decimal(n);
        let p = decimal(n / 10);
        assert(d == p.push(digit_char(n % 10)));
        assert(d.drop_last() =~= p);
        assert(digit_char(n % 10) as int == 48 + n % 10);
        assert(d.last() == digit_char(n % 10));
        assert(p.len() > 0);
        assert(d[0] == p[0]);
        assert((n / 10) * 10 + n % 10 == n);
        assert forall|i: int| 0 <= i < d.len() implies '0' <= #[trigger] d[i] <= '9' by {
            if i < p.len() {
                assert(d[i] == p[i]);
            }
        }
        assert(d.len() > 1);
        assert(d != seq!['0']);
    }
}

/// Law: `n_o_d`'s text for a number denotes that number, so different
/// numbers give different texts; no number gives the dashes.
pub proof fn lemma_number_text_denotes(r: u32, other: u32)
    ensures
        decimal_value(number_or_dashes(Some(r))) == r,
        r != other ==> number_or_dashes(Some(r)) != number_or_dashes(Some(other)),
        number_or_dashes(Some(r)) != number_or_dashes(None),
        number_or_dashes(None) == seq!['-', '-', '-'],
{
    lemma_decimal_denotes(r as nat);
    lemma_decimal_denotes(other as nat);
    let t = number_or_dashes(Some(r));
    if t == number_or_dashes(None) {
        assert(t[0] == '-');
    }
}

/// The colour a target is shown in.
#[derive(Clone, Copy, Debug, PartialEq, Eq, Structural)]
pub enum StatusColor {
    Green,
    Yellow,
    Red,
}

/// The colour for `errors` errors against a threshold: green below half the
/// threshold, yellow from half the threshold up to (not including) the
/// threshold, red from the threshold on.
pub open spec fn color_for(errors: u32, threshold: u32) -> StatusColor {
    let warn = threshold / 2;
    if errors < warn {
        StatusColor::Green
    } else if errors < threshold {
        StatusColor::Yellow
    } else {
        StatusColor::Red
    }
}

/// Law: for every threshold, the warning band starts at half the threshold
/// (rounded down) and ends just below the threshold: fewer errors are green,
/// errors in the band are yellow, and from the threshold on they are red.
pub proof fn lemma_color_bands(errors: u32, threshold: u32)
    ensures
        errors < threshold / 2 ==> color_for(errors, threshold) == StatusColor::Green,
        threshold / 2 <= errors < threshold ==> color_for(errors, threshold) == StatusColor::Yellow,
        errors >= threshold ==> color_for(errors, threshold) == StatusColor::Red,
{
}

/// The colour for `errors` errors against the error threshold of a target.
pub fn status_color(errors: u32, threshold: u32) -> (c: StatusColor)
    ensures
        c == color_for(errors, threshold),
{
    let warn = threshold / 2;
    if errors < warn {
        StatusColor::Green
    } else if warn <= errors && errors < threshold {
        StatusColor::Yellow
    } else {
        StatusColor::Red
    }
}

} // verus!
