//! Text as a sequence of characters: white space, words, decimal numbers and
//! the order of names.

use vstd::prelude::*;

verus! {

/// The characters of `s`, in order.
pub fn chars_of(s: &str) -> (r: Vec<char>)
    ensures
        r@ == s@,
{
    let mut v: Vec<char> = Vec::new();
    for c in it: s.chars()
        invariant
            v@ == it.seq().take(it.index() as int),
    {
        v.push(c);
    }
    v
}

/// Whether `c` is white space: the characters that Unicode gives the
/// property `White_Space`.
pub open spec fn is_whitespace(c: char) -> bool {
    let n = c as u32;
    ||| 0x09 <= n <= 0x0d
    ||| n == 0x20
    ||| n == 0x85
    ||| n == 0xa0
    ||| n == 0x1680
    ||| 0x2000 <= n <= 0x200a
    ||| n == 0x2028
    ||| n == 0x2029
    ||| n == 0x202f
    ||| n == 0x205f
    ||| n == 0x3000
}

/// Whether `c` is white space.
pub fn is_space(c: char) -> (r: bool)
    ensures
        r == is_whitespace(c),
{
    let n = c as u32;
    (0x09 <= n && n <= 0x0d) || n == 0x20 || n == 0x85 || n == 0xa0 || n == 0x1680 || (0x2000 <= n
        && n <= 0x200a) || n == 0x2028 || n == 0x2029 || n == 0x202f || n == 0x205f || n
        == 0x3000
}

/// The piece of `s` from `start` up to `end`, as a list of one piece, or no
/// piece where it would be empty.
pub open spec fn piece(s: Seq<char>, start: int, end: int) -> Seq<Seq<char>> {
    if start < end {
        seq![s.subrange(start, end)]
    } else {
        Seq::empty()
    }
}

/// The words of `s` that end at or after `from`, where the word being read
/// at `from`, if any, began at `cur`.
pub open spec fn words_from(s: Seq<char>, from: int, cur: int) -> Seq<Seq<char>>
    decreases s.len() - from,
{
    if from >= s.len() {
        piece(s, cur, s.len() as int)
    } else if is_whitespace(s[from]) {
        piece(s, cur, from) + words_from(s, from + 1, from + 1)
    } else {
        words_from(s, from + 1, cur)
    }
}

/// The words of `s`: its longest runs of characters that are not white
/// space, in order.
pub open spec fn words(s: Seq<char>) -> Seq<Seq<char>> {
    words_from(s, 0, 0)
}

/// The texts of a list of strings.
pub open spec fn texts(v: Seq<String>) -> Seq<Seq<char>> {
    Seq::new(v.len(), |i: int| v[i]@)
}

/// The words of `line`.
pub fn split_words(line: &str) -> (r: Vec<String>)
    ensures
        texts(r@) == words(line@),
{
    let chars = chars_of(line);
    let n = chars.len();
    let mut out: Vec<String> = Vec::new();
    let mut cur: usize = 0;
    let mut i: usize = 0;
    while i < n
        invariant
            chars@ == line@,
            n == chars@.len(),
            cur <= i <= n,
            texts(out@) + words_from(line@, i as int, cur as int) == words(line@),
        decreases n - i,
    {
        if is_space(chars[i]) {
            if cur < i {
                let word = line.substring_char(cur, i);
                let ghost before = texts(out@);
                out.push(word.to_owned());
                assert(texts(out@) =~= before + piece(line@, cur as int, i as int));
            }
            assert(texts(out@) + words_from(line@, i + 1, i + 1) =~= words(line@));
            cur = i + 1;
        }
        i += 1;
    }
    if cur < n {
        let word = line.substring_char(cur, n);
        let ghost before = texts(out@);
        out.push(word.to_owned());
        assert(texts(out@) =~= before + piece(line@, cur as int, n as int));
    }
    assert(texts(out@) =~= words(line@));
    out
}

/// Whether `a` and `b` are the same text.
pub fn same_text(a: &str, b: &str) -> (r: bool)
    ensures
        r == (a@ == b@),
{
    let x = chars_of(a);
    let y = chars_of(b);
    if x.len() != y.len() {
        return false;
    }
    let mut i: usize = 0;
    while i < x.len()
        invariant
            x@ == a@,
            y@ == b@,
            x@.len() == y@.len(),
            i <= x@.len(),
            forall|k: int| 0 <= k < i ==> x@[k] == y@[k],
        decreases x@.len() - i,
    {
        if x[i] != y[i] {
            return false;
        }
        i += 1;
    }
    assert(a@ =~= b@);
    true
}

/// Whether `c` is one of the digits `0` to `9`.
pub open spec fn is_digit(c: char) -> bool {
    0x30 <= c as u32 <= 0x39
}

/// The number that a digit stands for.
pub open spec fn digit_value(c: char) -> nat {
    (c as u32 - 0x30) as nat
}

/// The number that a run of digits writes in base ten.
pub open spec fn decimal_value(s: Seq<char>) -> nat
    decreases s.len(),
{
    if s.len() == 0 {
        0
    } else {
        decimal_value(s.drop_last()) * 10 + digit_value(s.last())
    }
}

/// The digits of a word that may begin with a plus sign.
pub open spec fn unsigned_part(word: Seq<char>) -> Seq<char> {
    if word.len() > 0 && word[0] == '+' {
        word.drop_first()
    } else {
        word
    }
}

/// The number of the line that `word` names: `word` is one or more decimal
/// digits, with or without a plus sign before them. Any other word names
/// no line.
pub open spec fn qubit_index(word: Seq<char>) -> Option<nat> {
    let digits = unsigned_part(word);
    if digits.len() > 0 && (forall|i: int| 0 <= i < digits.len() ==> is_digit(#[trigger] digits[i])) {
        Some(decimal_value(digits))
    } else {
        None
    }
}

/// The line below `limit` that `word` names, if it names one.
pub open spec fn index_below(word: Seq<char>, limit: nat) -> Option<usize> {
    match qubit_index(word) {
        Some(v) => if v < limit && v <= usize::MAX {
            Some(v as usize)
        } else {
            None
        },
        None => None,
    }
}

/// A run of digits is worth at least as much as any of its beginnings.
pub proof fn lemma_decimal_value_grows(s: Seq<char>, k: int)
    requires
        0 <= k <= s.len(),
    ensures
        decimal_value(s.take(k)) <= decimal_value(s),
    decreases s.len() - k,
{
    if k == s.len() {
        assert(s.take(k) =~= s);
    } else {
        lemma_decimal_value_grows(s, k + 1);
        assert(s.take(k + 1).drop_last() =~= s.take(k));
    }
}

/// The line below `limit` that `word` names, if it names one.
pub fn parse_index(word: &str, limit: usize) -> (r: Option<usize>)
    ensures
        r == index_below(word@, limit as nat),
{
    let chars = chars_of(word);
    let n = chars.len();
    let start: usize = if n > 0 && chars[0] == '+' {
        1
    } else {
        0
    };
    let ghost digits = unsigned_part(word@);
    assert(digits =~= word@.skip(start as int));
    if start == n || limit == 0 {
        return None;
    }
    assert(digits.take(0) =~= Seq::<char>::empty());
    let mut value: usize = 0;
    let mut i: usize = start;
    while i < n
        invariant
            chars@ == word@,
            n == chars@.len(),
            digits == word@.skip(start as int),
            digits == unsigned_part(word@),
            start <= i <= n,
            start < n,
            forall|k: int| 0 <= k < i - start ==> is_digit(#[trigger] digits[k]),
            value == decimal_value(digits.take(i - start)),
            value < limit,
        decreases n - i,
    {
        let c = chars[i];
        let code = c as u32;
        assert(c == digits[i - start]);
        if code < 0x30 || code > 0x39 {
            assert(!is_digit(digits[i - start]));
            return None;
        }
        let d = (code - 0x30) as usize;
        proof {
            let longer = digits.take(i - start + 1);
            assert(longer.drop_last() =~= digits.take(i - start));
            assert(longer.last() == c);
            assert(decimal_value(longer) == value * 10 + d);
            lemma_decimal_value_grows(digits, i - start + 1);
        }
        if value > (usize::MAX - d) / 10 {
            return None;
        }
        value = value * 10 + d;
        if value >= limit {
            return None;
        }
        i += 1;
    }
    assert(digits.take(n - start) =~= digits);
    Some(value)
}

/// Whether `a` comes before `b` in the order of names: at the first place
/// where they differ `a` has the smaller character, or `a` is a proper
/// beginning of `b`.
pub open spec fn name_precedes(a: Seq<char>, b: Seq<char>) -> bool
    decreases a.len(),
{
    if b.len() == 0 {
        false
    } else if a.len() == 0 {
        true
    } else if a[0] != b[0] {
        (a[0] as u32) < (b[0] as u32)
    } else {
        name_precedes(a.drop_first(), b.drop_first())
    }
}

/// No name comes before itself.
pub proof fn lemma_precedes_irreflexive(a: Seq<char>)
    ensures
        !name_precedes(a, a),
    decreases a.len(),
{
    if a.len() > 0 {
        lemma_precedes_irreflexive(a.drop_first());
    }
}

/// Where `a` comes before `b` and `b` before `c`, `a` comes before `c`.
pub proof fn lemma_precedes_transitive(a: Seq<char>, b: Seq<char>, c: Seq<char>)
    requires
        name_precedes(a, b),
        name_precedes(b, c),
    ensures
        name_precedes(a, c),
    decreases a.len(),
{
    if a.len() > 0 && a[0] == b[0] && b[0] == c[0] {
        lemma_precedes_transitive(a.drop_first(), b.drop_first(), c.drop_first());
    }
}

/// Whether `a` comes before `b` in the order of names.
pub fn precedes(a: &str, b: &str) -> (r: bool)
    ensures
        r == name_precedes(a@, b@),
{
    let x = chars_of(a);
    let y = chars_of(b);
    let mut i: usize = 0;
    assert(a@.skip(0) =~= a@);
    assert(b@.skip(0) =~= b@);
    while i < x.len() && i < y.len()
        invariant
            x@ == a@,
            y@ == b@,
            i <= x@.len(),
            i <= y@.len(),
            name_precedes(a@, b@) == name_precedes(a@.skip(i as int), b@.skip(i as int)),
        decreases x@.len() - i,
    {
        assert(a@.skip(i as int).drop_first() =~= a@.skip(i + 1));
        assert(b@.skip(i as int).drop_first() =~= b@.skip(i + 1));
        if x[i] != y[i] {
            return (x[i] as u32) < (y[i] as u32);
        }
        i += 1;
    }
    i < y.len()
}

/// The digit that writes the bit `b`.
pub open spec fn bit_char(b: nat) -> char {
    if b == 0 {
        '0'
    } else {
        '1'
    }
}

/// `n` in base two, without leading zeros: at least one digit, the highest
/// first.
pub open spec fn binary(n: nat) -> Seq<char>
    decreases n,
{
    if n < 2 {
        seq![bit_char(n)]
    } else {
        binary(n / 2).push(bit_char(n % 2))
    }
}

/// `n` in base two, with zeros before it where it has fewer than `width`
/// digits.
pub open spec fn padded_binary(n: nat, width: nat) -> Seq<char> {
    let digits = binary(n);
    if digits.len() < width {
        Seq::new((width - digits.len()) as nat, |i: int| '0') + digits
    } else {
        digits
    }
}

/// The label of basis state `n` of a register of `width` lines: `n` in base
/// two between a bar and an angle, the bit of line 0 last.
pub open spec fn ket(n: nat, width: nat) -> Seq<char> {
    seq!['|'] + padded_binary(n, width) + seq!['>']
}

/// The digits of a list of bits, the last bit first.
pub open spec fn reversed_digits(bits: Seq<bool>) -> Seq<char> {
    Seq::new(
        bits.len(),
        |i: int|
            if bits[bits.len() - 1 - i] {
                '1'
            } else {
                '0'
            },
    )
}

/// The label of basis state `n` of a register of `width` lines.
pub fn basis_label(n: usize, width: usize) -> (r: String)
    ensures
        r@ == ket(n as nat, width as nat),
{
    let mut low: Vec<bool> = Vec::new();
    let mut m = n;
    assert(binary(n as nat) =~= binary(m as nat) + reversed_digits(low@));
    while m >= 2
        invariant
            binary(n as nat) == binary(m as nat) + reversed_digits(low@),
        decreases m,
    {
        let ghost before = low@;
        low.push(m % 2 == 1);
        assert(binary(m as nat) == binary((m / 2) as nat).push(bit_char((m % 2) as nat)));
        assert(binary((m / 2) as nat).push(bit_char((m % 2) as nat)) + reversed_digits(before)
            =~= binary((m / 2) as nat) + reversed_digits(low@));
        m = m / 2;
    }
    let count = low.len();
    assert(binary(n as nat).len() == count + 1);
    proof {
        reveal_strlit("|");
        reveal_strlit("0");
        reveal_strlit("1");
        reveal_strlit(">");
    }
    let mut text = String::from_str("|");
    let zeros = if width > count && width - count > 1 {
        width - count - 1
    } else {
        0
    };
    let mut k: usize = 0;
    while k < zeros
        invariant
            k <= zeros,
            text@ == seq!['|'] + Seq::new(k as nat, |i: int| '0'),
            "0"@ == seq!['0'],
        decreases zeros - k,
    {
        text.append("0");
        assert(text@ =~= seq!['|'] + Seq::new((k + 1) as nat, |i: int| '0'));
        k += 1;
    }
    let ghost pad = Seq::new(k as nat, |i: int| '0');
    assert(padded_binary(n as nat, width as nat) =~= pad + binary(n as nat));
    if m == 1 {
        text.append("1");
    } else {
        text.append("0");
    }
    let ghost head = seq!['|'] + pad + binary(m as nat);
    assert(text@ =~= head);
    let mut j: usize = 0;
    while j < count
        invariant
            count == low@.len(),
            j <= count,
            text@ == head + reversed_digits(low@).take(j as int),
            "0"@ == seq!['0'],
            "1"@ == seq!['1'],
        decreases count - j,
    {
        if low[count - 1 - j] {
            text.append("1");
        } else {
            text.append("0");
        }
        assert(text@ =~= head + reversed_digits(low@).take(j + 1));
        j += 1;
    }
    assert(reversed_digits(low@).take(count as int) =~= reversed_digits(low@));
    text.append(">");
    assert(text@ =~= ket(n as nat, width as nat));
    text
}

} // verus!
