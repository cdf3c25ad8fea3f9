//! Characters and character sequences: white space, trimming, searching.
use vstd::prelude::*;

verus! {

/// `c` has the Unicode property `White_Space`.
pub open spec fn white_space(c: char) -> bool {
    let n = c as u32;
    ||| 0x09 <= n <= 0x0D
    ||| n == 0x20
    ||| n == 0x85
    ||| n == 0xA0
    ||| n == 0x1680
    ||| 0x2000 <= n <= 0x200A
    ||| n == 0x2028
    ||| n == 0x2029
    ||| n == 0x202F
    ||| n == 0x205F
    ||| n == 0x3000
}

/// Whether `c` is white space.
pub fn is_whitespace(c: char) -> (yes: bool)
    ensures
        yes == white_space(c),
{
    let n: u32 = c as u32;
    (0x09 <= n && n <= 0x0D) || n == 0x20 || n == 0x85 || n == 0xA0 || n == 0x1680 || (0x2000 <= n
        && n <= 0x200A) || n == 0x2028 || n == 0x2029 || n == 0x202F || n == 0x205F || n == 0x3000
}

/// The characters of `text`, one for one.
pub fn chars_of(text: &str) -> (chars: Vec<char>)
    ensures
        chars@ == text@,
{
    let mut chars: Vec<char> = Vec::new();
    for c in it: text.chars()
        invariant
            chars@ == it.seq().take(it.index()),
    {
        proof {
            assert(it.seq().take(it.index() + 1) =~= it.seq().take(it.index()).push(c));
        }
        chars.push(c);
    }
    proof {
        assert(chars@ =~= text@);
    }
    chars
}

/// How many white-space characters `s` starts with.
pub open spec fn leading_space(s: Seq<char>) -> nat
    decreases s.len(),
{
    if s.len() > 0 && white_space(s[0]) {
        1 + leading_space(s.drop_first())
    } else {
        0
    }
}

/// How many white-space characters `s` ends with.
pub open spec fn trailing_space(s: Seq<char>) -> nat
    decreases s.len(),
{
    if s.len() > 0 && white_space(s.last()) {
        1 + trailing_space(s.drop_last())
    } else {
        0
    }
}

/// `s` without the white space it starts with.
pub open spec fn trim_start(s: Seq<char>) -> Seq<char> {
    s.skip(leading_space(s) as int)
}

/// `s` without the white space it ends with.
pub open spec fn trim_end(s: Seq<char>) -> Seq<char> {
    s.take(s.len() - trailing_space(s))
}

/// `s` without the white space at either end.
pub open spec fn trim(s: Seq<char>) -> Seq<char> {
    trim_end(trim_start(s))
}

/// The index of the first `c` in `s`, or the length of `s` if it holds none.
pub open spec fn position(s: Seq<char>, c: char) -> int
    decreases s.len(),
{
    if s.len() == 0 || s[0] == c {
        0
    } else {
        1 + position(s.drop_first(), c)
    }
}

/// `s` consists of the character `c` only.
pub open spec fn all_are(s: Seq<char>, c: char) -> bool {
    forall|i: int| 0 <= i < s.len() ==> s[i] == c
}

/// Counting white space from the front stops at the first character that
/// is none.
pub proof fn lemma_leading_space(s: Seq<char>, k: int)
    requires
        0 <= k <= s.len(),
        forall|j: int| 0 <= j < k ==> white_space(s[j]),
        k == s.len() || !white_space(s[k]),
    ensures
        leading_space(s) == k,
    decreases k,
{
    if k > 0 {
        let rest = s.drop_first();
        assert forall|j: int| 0 <= j < k - 1 implies white_space(rest[j]) by {
            assert(rest[j] == s[j + 1]);
        }
        lemma_leading_space(rest, k - 1);
    }
}

/// Counting white space from the back stops at the last character that is
/// none.
pub proof fn lemma_trailing_space(s: Seq<char>, k: int)
    requires
        0 <= k <= s.len(),
        forall|j: int| k <= j < s.len() ==> white_space(s[j]),
        k == 0 || !white_space(s[k - 1]),
    ensures
        trailing_space(s) == s.len() - k,
    decreases s.len() - k,
{
    if k < s.len() {
        let rest = s.drop_last();
        assert forall|j: int| k <= j < rest.len() implies white_space(rest[j]) by {
            assert(rest[j] == s[j]);
        }
        lemma_trailing_space(rest, k);
    }
}

/// The first `c` of `s` is where no earlier character is `c`.
pub proof fn lemma_position(s: Seq<char>, c: char, k: int)
    requires
        0 <= k <= s.len(),
        forall|j: int| 0 <= j < k ==> s[j] != c,
        k == s.len() || s[k] == c,
    ensures
        position(s, c) == k,
    decreases k,
{
    if k > 0 {
        let rest = s.drop_first();
        assert forall|j: int| 0 <= j < k - 1 implies rest[j] != c by {
            assert(rest[j] == s[j + 1]);
        }
        lemma_position(rest, c, k - 1);
    }
}

/// What `position` returns lies in the sequence or at its end, marks a `c`
/// if it lies inside, and has no `c` before it.
pub proof fn lemma_position_is_first(s: Seq<char>, c: char)
    ensures
        0 <= position(s, c) <= s.len(),
        position(s, c) < s.len() ==> s[position(s, c)] == c,
        forall|j: int| 0 <= j < position(s, c) ==> s[j] != c,
        position(s, c) < s.len() <==> s.contains(c),
    decreases s.len(),
{
    if s.len() == 0 || s[0] == c {
        if s.len() > 0 {
            assert(s.contains(c));
        }
    } else {
        let rest = s.drop_first();
        lemma_position_is_first(rest, c);
        assert forall|j: int| 0 <= j < position(s, c) implies s[j] != c by {
            if j > 0 {
                assert(rest[j - 1] == s[j]);
            }
        }
        if position(rest, c) < rest.len() {
            assert(s[position(rest, c) + 1] == rest[position(rest, c)]);
            assert(s.contains(c));
        }
        if s.contains(c) {
            let i = choose|i: int| 0 <= i < s.len() && s[i] == c;
            assert(rest[i - 1] == c);
            assert(rest.contains(c));
        }
    }
}

/// The bounds of the part of `chars[from..to]` that is left when the white
/// space at both ends is taken away.
pub fn trim_range(chars: &Vec<char>, from: usize, to: usize) -> (bounds: (usize, usize))
    requires
        from <= to <= chars.len(),
    ensures
        from <= bounds.0 <= bounds.1 <= to,
        chars@.subrange(bounds.0 as int, bounds.1 as int) == trim(
            chars@.subrange(from as int, to as int),
        ),
{
    let ghost part = chars@.subrange(from as int, to as int);
    let mut a: usize = from;
    while a < to && is_whitespace(chars[a])
        invariant
            from <= a <= to <= chars.len(),
            forall|j: int| from <= j < a ==> white_space(chars@[j]),
        decreases to - a,
    {
        a += 1;
    }
    let mut b: usize = to;
    while b > a && is_whitespace(chars[b - 1])
        invariant
            a <= b <= to <= chars.len(),
            forall|j: int| b <= j < to ==> white_space(chars@[j]),
        decreases b,
    {
        b -= 1;
    }
    proof {
        assert forall|j: int| 0 <= j < a - from implies white_space(part[j]) by {
            assert(part[j] == chars@[j + from]);
        }
        lemma_leading_space(part, a - from);
        let front = trim_start(part);
        assert(front =~= chars@.subrange(a as int, to as int));
        assert forall|j: int| b - a <= j < front.len() implies white_space(front[j]) by {
            assert(front[j] == chars@[j + a]);
        }
        lemma_trailing_space(front, b - a);
        assert(trim(part) =~= chars@.subrange(a as int, b as int));
    }
    (a, b)
}

/// The index of the first `c` in `chars[from..to]`, or `to` if there is none.
pub fn find(chars: &Vec<char>, from: usize, to: usize, c: char) -> (at: usize)
    requires
        from <= to <= chars.len(),
    ensures
        from <= at <= to,
        at - from == position(chars@.subrange(from as int, to as int), c),
{
    let mut at: usize = from;
    while at < to && chars[at] != c
        invariant
            from <= at <= to <= chars.len(),
            forall|j: int| from <= j < at ==> chars@[j] != c,
        decreases to - at,
    {
        at += 1;
    }
    proof {
        let part = chars@.subrange(from as int, to as int);
        assert forall|j: int| 0 <= j < at - from implies part[j] != c by {
            assert(part[j] == chars@[j + from]);
        }
        lemma_position(part, c, at - from);
    }
    at
}

/// Whether `chars[from..to]` holds nothing but `c`.
pub fn all_equal(chars: &Vec<char>, from: usize, to: usize, c: char) -> (yes: bool)
    requires
        from <= to <= chars.len(),
    ensures
        yes == all_are(chars@.subrange(from as int, to as int), c),
{
    let ghost part = chars@.subrange(from as int, to as int);
    let mut i: usize = from;
    while i < to
        invariant
            from <= i <= to <= chars.len(),
            part == chars@.subrange(from as int, to as int),
            forall|j: int| from <= j < i ==> chars@[j] == c,
        decreases to - i,
    {
        if chars[i] != c {
            proof {
                assert(part[i - from] == chars@[i as int]);
            }
            return false;
        }
        i += 1;
    }
    proof {
        assert forall|j: int| 0 <= j < part.len() implies part[j] == c by {
            assert(part[j] == chars@[j + from]);
        }
    }
    true
}

/// The character for the decimal digit `d`.
pub open spec fn digit_char(d: nat) -> char {
    (48 + d) as char
}

/// The decimal digits of `n`, most significant first, without leading
/// zeros; `0` for zero.
pub open spec fn digits(n: nat) -> Seq<char>
    decreases n,
{
    if n < 10 {
        seq![digit_char(n)]
    } else {
        digits(n / 10) + seq![digit_char(n % 10)]
    }
}

/// `n` in decimal, with a minus sign in front of a negative number.
pub open spec fn decimal(n: int) -> Seq<char> {
    if n < 0 {
        seq!['-'] + digits((-n) as nat)
    } else {
        digits(n as nat)
    }
}

/// The text of one decimal digit.
fn digit(d: u8) -> (text: &'static str)
    requires
        d < 10,
    ensures
        text@ == seq![digit_char(d as nat)],
{
    proof {
        reveal_strlit("0");
        reveal_strlit("1");
        reveal_strlit("2");
        reveal_strlit("3");
        reveal_strlit("4");
        reveal_strlit("5");
        reveal_strlit("6");
        reveal_strlit("7");
        reveal_strlit("8");
        reveal_strlit("9");
    }
    let text = if d == 0 {
        "0"
    } else if d == 1 {
        "1"
    } else if d == 2 {
        "2"
    } else if d == 3 {
        "3"
    } else if d == 4 {
        "4"
    } else if d == 5 {
        "5"
    } else if d == 6 {
        "6"
    } else if d == 7 {
        "7"
    } else if d == 8 {
        "8"
    } else {
        "9"
    };
    assert(text@ =~= seq![digit_char(d as nat)]);
    text
}

/// Appends the decimal digits of `n` to `out`.
fn write_digits(n: u64, out: &mut String)
    ensures
        final(out)@ == old(out)@ + digits(n as nat),
    decreases n,
{
    let ghost start = out@;
    if n >= 10 {
        write_digits(n / 10, out);
    }
    out.append(digit((n % 10) as u8));
    assert(out@ =~= start + digits(n as nat));
}

/// `n` written in decimal.
pub fn decimal_of(n: i32) -> (text: String)
    ensures
        text@ == decimal(n as int),
{
    let mut text = String::new();
    if n < 0 {
        proof {
            reveal_strlit("-");
        }
        text.append("-");
        write_digits((-(n as i64)) as u64, &mut text);
        assert(text@ =~= decimal(n as int));
    } else {
        write_digits(n as u64, &mut text);
        assert(text@ =~= decimal(n as int));
    }
    text
}

/// The count `n` written in decimal.
pub fn count_of(n: usize) -> (text: String)
    ensures
        text@ == decimal(n as int),
{
    let mut text = String::new();
    write_digits(n as u64, &mut text);
    assert(text@ =~= decimal(n as int));
    text
}

/// `s` ends with `suffix`.
pub open spec fn ends_with(s: Seq<char>, suffix: Seq<char>) -> bool {
    suffix.len() <= s.len() && s.subrange(s.len() - suffix.len(), s.len() as int) == suffix
}

/// Whether `text` ends with `suffix`.
pub fn has_suffix(text: &str, suffix: &str) -> (yes: bool)
    ensures
        yes == ends_with(text@, suffix@),
{
    let chars = chars_of(text);
    let tail = chars_of(suffix);
    if tail.len() > chars.len() {
        return false;
    }
    let offset = chars.len() - tail.len();
    let ghost part = chars@.subrange(offset as int, chars@.len() as int);
    let mut i: usize = 0;
    while i < tail.len()
        invariant
            i <= tail.len(),
            offset + tail.len() == chars.len(),
            chars@ == text@,
            tail@ == suffix@,
            part == chars@.subrange(offset as int, chars@.len() as int),
            forall|j: int| 0 <= j < i ==> chars@[offset + j] == tail@[j],
        decreases tail@.len() - i,
    {
        if chars[offset + i] != tail[i] {
            proof {
                assert(part[i as int] == chars@[offset + i]);
            }
            return false;
        }
        i += 1;
    }
    proof {
        assert(part =~= tail@);
    }
    true
}

} // verus!
