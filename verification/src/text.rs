//! Decimal numbers as text.
use vstd::prelude::*;
use vstd::string::StringExecFns;

verus! {

/// Whether `c` is a decimal digit.
pub open spec fn is_digit(c: char) -> bool {
    '0' <= c <= '9'
}

/// The number that a run of decimal digits stands for.
pub open spec fn digits_value(s: Seq<char>) -> nat
    decreases s.len(),
{
    if s.len() == 0 {
        0
    } else {
        digits_value(s.drop_last()) * 10 + (s.last() as nat - '0' as nat) as nat
    }
}

/// The `u64` that `s` spells in decimal digits, at least one.
pub open spec fn parsed_digits(s: Seq<char>) -> Option<u64> {
    if s.len() > 0 && (forall|i: int| 0 <= i < s.len() ==> is_digit(#[trigger] s[i]))
        && digits_value(s) <= u64::MAX {
        Some(digits_value(s) as u64)
    } else {
        None
    }
}

/// The `u64` that `s` spells in decimal digits behind an optional plus sign.
pub open spec fn parsed_u64(s: Seq<char>) -> Option<u64> {
    if s.len() > 0 && s[0] == '+' {
        parsed_digits(s.drop_first())
    } else {
        parsed_digits(s)
    }
}

/// Whether `c` is white space of the kind that a line of text can hold.
pub open spec fn is_blank(c: char) -> bool {
    c == ' ' || c == '\t'
}

/// `s` without its leading and trailing blanks.
pub open spec fn trimmed(s: Seq<char>) -> Seq<char>
    decreases s.len(),
{
    if s.len() > 0 && is_blank(s.first()) {
        trimmed(s.drop_first())
    } else if s.len() > 0 && is_blank(s.last()) {
        trimmed(s.drop_last())
    } else {
        s
    }
}

/// The digits of `n`, most significant first.
pub open spec fn decimal_digits(n: nat) -> Seq<char>
    decreases n,
{
    let last = ('0' as nat + n % 10) as char;
    if n < 10 {
        seq![last]
    } else {
        decimal_digits(n / 10).push(last)
    }
}

/// The one-digit text of `n`.
fn digit(n: u32) -> (s: &'static str)
    requires
        n < 10,
    ensures
        s@ == seq![('0' as nat + n) as char],
{
    proof {
        reveal_strlit("0");
        reveal_strlit("1");
        reveal_strlit("2");
        reveal_strlit("3");
        reveal_strlit("4");
        reveal_strlit("5");
        reveal_strlit("6");
        reveal_strlit("7");
        reveal_strlit("8");
        reveal_strlit("9");
    }
    let s = match n {
        0 => "0",
        1 => "1",
        2 => "2",
        3 => "3",
        4 => "4",
        5 => "5",
        6 => "6",
        7 => "7",
        8 => "8",
        _ => "9",
    };
    assert(s@ =~= seq![('0' as nat + n) as char]);
    s
}

/// `n` in decimal.
pub fn decimal(n: u32) -> (s: String)
    ensures
        s@ == decimal_digits(n as nat),
    decreases n,
{
    if n < 10 {
        digit(n).to_owned()
    } else {
        let mut s = decimal(n / 10);
        let ghost head = s@;
        s.append(digit(n % 10));
        assert(s@ =~= head.push(('0' as nat + n % 10) as char));
        s
    }
}

/// More digits never make a smaller number.
proof fn lemma_digits_grow(s: Seq<char>, n: int)
    requires
        0 <= n <= s.len(),
    ensures
        digits_value(s.take(n)) <= digits_value(s),
    decreases s.len() - n,
{
    if n < s.len() {
        lemma_digits_grow(s, n + 1);
        assert(s.take(n + 1).drop_last() =~= s.take(n));
    } else {
        assert(s.take(n) =~= s);
    }
}

/// The number that `bytes[from..to]` spells in decimal digits alone.
fn parse_digits(bytes: &[u8], from: usize, to: usize, Ghost(s): Ghost<Seq<char>>) -> (r: Option<
    u64,
>)
    requires
        from <= to <= bytes@.len(),
        s.len() == to - from,
        forall|i: int| 0 <= i < s.len() ==> s[i] as int == bytes@[from + i] as int,
    ensures
        r == parsed_digits(s),
{
    if from == to {
        return None;
    }
    let mut n: u64 = 0;
    let mut i: usize = from;
    assert(s.take(0) =~= Seq::<char>::empty());
    while i < to
        invariant
            from <= i <= to <= bytes@.len(),
            s.len() == to - from,
            s.len() > 0,
            forall|i: int| 0 <= i < s.len() ==> s[i] as int == bytes@[from + i] as int,
            forall|j: int| 0 <= j < i - from ==> is_digit(#[trigger] s[j]),
            n == digits_value(s.take(i - from)),
        decreases to - i,
    {
        let b: u8 = bytes[i];
        assert(s[i - from] as int == b as int);
        if b < 48 || b > 57 {
            assert(!is_digit(s[i - from]));
            return None;
        }
        proof {
            assert(s.take(i - from + 1).drop_last() =~= s.take(i - from));
            lemma_digits_grow(s, i - from + 1);
        }
        let next: u128 = n as u128 * 10 + (b - 48) as u128;
        if next > 0xffff_ffff_ffff_ffff {
            return None;
        }
        n = next as u64;
        i = i + 1;
    }
    assert(s.take(s.len() as int) =~= s);
    Some(n)
}

/// The number that `text` spells, blanks around it left aside.
pub fn parse_u64(text: &str) -> (r: Option<u64>)
    requires
        text.is_ascii(),
    ensures
        r == parsed_u64(trimmed(text@)),
{
    let ghost s = text@;
    let bytes = text.as_bytes();
    proof {
        vstd::string::is_ascii_spec_bytes(text);
        assert(bytes@.len() == s.len());
        assert(forall|i: int| 0 <= i < s.len() ==> s[i] as int == bytes@[i] as int);
        assert(s.subrange(0, s.len() as int) =~= s);
    }
    let mut from: usize = 0;
    let mut to: usize = bytes.len();
    while from < to && (bytes[from] == 32 || bytes[from] == 9)
        invariant
            from <= to == bytes@.len() == s.len(),
            forall|i: int| 0 <= i < s.len() ==> s[i] as int == bytes@[i] as int,
            trimmed(s) == trimmed(s.subrange(from as int, to as int)),
        decreases to - from,
    {
        proof {
            let rest = s.subrange(from as int, to as int);
            assert(rest.first() as int == bytes@[from as int] as int);
            assert(rest.drop_first() =~= s.subrange(from + 1, to as int));
        }
        from = from + 1;
    }
    while from < to && (bytes[to - 1] == 32 || bytes[to - 1] == 9)
        invariant
            from <= to <= bytes@.len() == s.len(),
            forall|i: int| 0 <= i < s.len() ==> s[i] as int == bytes@[i] as int,
            trimmed(s) == trimmed(s.subrange(from as int, to as int)),
            from < to ==> !is_blank(s[from as int]),
        decreases to - from,
    {
        proof {
            let rest = s.subrange(from as int, to as int);
            assert(rest.first() == s[from as int]);
            assert(rest.last() as int == bytes@[to - 1] as int);
            assert(rest.drop_last() =~= s.subrange(from as int, to - 1));
        }
        to = to - 1;
    }
    let ghost core = s.subrange(from as int, to as int);
    proof {
        if from < to {
            assert(core.first() == s[from as int]);
            assert(core.last() as int == bytes@[to - 1] as int);
        }
        assert(trimmed(s) == core);
    }
    if from < to && bytes[from] == 43 {
        assert(core[0] as int == bytes@[from as int] as int);
        assert(core.drop_first() =~= s.subrange(from + 1, to as int));
        parse_digits(bytes, from + 1, to, Ghost(core.drop_first()))
    } else {
        if from < to {
            assert(core[0] as int == bytes@[from as int] as int);
        }
        parse_digits(bytes, from, to, Ghost(core))
    }
}

} // verus!
