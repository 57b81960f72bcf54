use vstd::prelude::*;
use vstd::std_specs::iter::IteratorSpec;
use vstd::string::StringExecFns;

verus! {

/// The character that stands for the decimal digit `d`.
pub open spec fn digit_char(d: nat) -> char
    recommends
        d < 10,
{
    if d == 0 {
        '0'
    } else if d == 1 {
        '1'
    } else if d == 2 {
        '2'
    } else if d == 3 {
        '3'
    } else if d == 4 {
        '4'
    } else if d == 5 {
        '5'
    } else if d == 6 {
        '6'
    } else if d == 7 {
        '7'
    } else if d == 8 {
        '8'
    } else {
        '9'
    }
}

/// The decimal numeral of `n`, most significant digit first, without leading
/// zeros; zero is written "0".
pub open spec fn decimal_text(n: nat) -> Seq<char>
    decreases n,
{
    if n < 10 {
        seq![digit_char(n)]
    } else {
        decimal_text(n / 10).push(digit_char(n % 10))
    }
}

/// Whether `c` is a decimal digit.
pub open spec fn is_digit(c: char) -> bool {
    c == '0' || c == '1' || c == '2' || c == '3' || c == '4' || c == '5' || c == '6' || c == '7'
        || c == '8' || c == '9'
}

/// The number that a decimal digit stands for.
pub open spec fn digit_value(c: char) -> nat {
    if c == '1' {
        1
    } else if c == '2' {
        2
    } else if c == '3' {
        3
    } else if c == '4' {
        4
    } else if c == '5' {
        5
    } else if c == '6' {
        6
    } else if c == '7' {
        7
    } else if c == '8' {
        8
    } else if c == '9' {
        9
    } else {
        0
    }
}

/// The number that a decimal numeral stands for.
pub open spec fn decimal_value(numeral: Seq<char>) -> nat
    decreases numeral.len(),
{
    if numeral.len() == 0 {
        0
    } else {
        decimal_value(numeral.drop_last()) * 10 + digit_value(numeral.last())
    }
}

/// A decimal numeral is not empty and holds nothing but digits.
pub proof fn lemma_decimal_digits(n: nat)
    ensures
        decimal_text(n).len() >= 1,
        forall|i: int| 0 <= i < decimal_text(n).len() ==> is_digit(#[trigger] decimal_text(n)[i]),
    decreases n,
{
    if n >= 10 {
        lemma_decimal_digits(n / 10);
    }
}

/// A decimal numeral stands for the number it was written for.
pub proof fn lemma_decimal_value(n: nat)
    ensures
        decimal_value(decimal_text(n)) == n,
    decreases n,
{
    if n < 10 {
        assert(decimal_text(n).drop_last() =~= Seq::<char>::empty());
        assert(decimal_value(decimal_text(n).drop_last()) == 0);
    } else {
        lemma_decimal_value(n / 10);
        assert(decimal_text(n).drop_last() =~= decimal_text(n / 10));
    }
}

/// Different numbers have different decimal numerals.
pub proof fn lemma_decimal_injective(a: nat, b: nat)
    requires
        decimal_text(a) == decimal_text(b),
    ensures
        a == b,
{
    lemma_decimal_value(a);
    lemma_decimal_value(b);
}

/// A text that begins with a run free of `mark`, and then `mark`, can be
/// read in one way only: if two such texts are the same, so are the runs and
/// so is what follows.
pub proof fn lemma_marked_prefix(
    a: Seq<char>,
    b: Seq<char>,
    mark: char,
    x: Seq<char>,
    y: Seq<char>,
)
    requires
        !a.contains(mark),
        !b.contains(mark),
        a + seq![mark] + x == b + seq![mark] + y,
    ensures
        a == b,
        x == y,
{
    let left = a + seq![mark] + x;
    let right = b + seq![mark] + y;
    if a.len() < b.len() {
        assert(left[a.len() as int] == mark);
        assert(right[a.len() as int] == b[a.len() as int]);
    }
    if b.len() < a.len() {
        assert(right[b.len() as int] == mark);
        assert(left[b.len() as int] == a[b.len() as int]);
    }
    assert(a =~= left.take(a.len() as int));
    assert(b =~= right.take(b.len() as int));
    assert(x =~= left.skip(a.len() as int + 1));
    assert(y =~= right.skip(b.len() as int + 1));
}

/// A text that begins with a decimal numeral and a character that is no
/// digit can be read in one way only: if two such texts are the same, so are
/// the numbers and so is what follows.
pub proof fn lemma_numeral_prefix(a: nat, b: nat, mark: char, x: Seq<char>, y: Seq<char>)
    requires
        !is_digit(mark),
        decimal_text(a) + seq![mark] + x == decimal_text(b) + seq![mark] + y,
    ensures
        a == b,
        x == y,
{
    lemma_decimal_digits(a);
    lemma_decimal_digits(b);
    lemma_marked_prefix(decimal_text(a), decimal_text(b), mark, x, y);
    lemma_decimal_injective(a, b);
}

/// The number of dashes in a text.
pub open spec fn dash_count(text: Seq<char>) -> nat
    decreases text.len(),
{
    if text.len() == 0 {
        0
    } else if text.last() == '-' {
        dash_count(text.drop_last()) + 1
    } else {
        dash_count(text.drop_last())
    }
}

/// The dashes of two texts joined are those of the one and those of the
/// other.
pub proof fn lemma_dash_count_joined(a: Seq<char>, b: Seq<char>)
    ensures
        dash_count(a + b) == dash_count(a) + dash_count(b),
    decreases b.len(),
{
    if b.len() == 0 {
        assert(a + b =~= a);
    } else {
        assert((a + b).drop_last() =~= a + b.drop_last());
        assert((a + b).last() == b.last());
        lemma_dash_count_joined(a, b.drop_last());
    }
}

/// A text holds a dash exactly if its number of dashes is not zero.
pub proof fn lemma_dash_count_zero(text: Seq<char>)
    ensures
        text.contains('-') <==> dash_count(text) > 0,
    decreases text.len(),
{
    if text.len() > 0 {
        lemma_dash_count_zero(text.drop_last());
        if text.contains('-') {
            let i = choose|i: int| 0 <= i < text.len() && text[i] == '-';
            if i < text.len() - 1 {
                assert(text.drop_last()[i] == '-');
            }
        }
        if text.drop_last().contains('-') {
            let i = choose|i: int| 0 <= i < text.drop_last().len() && text.drop_last()[i] == '-';
            assert(text[i] == '-');
        }
        if text.last() == '-' {
            assert(text[text.len() - 1] == '-');
        }
    }
}

/// Whether `a` sorts strictly before `b`: character by character, by code
/// point, a proper prefix before its extensions. This is the order of `str`.
pub open spec fn text_lt(a: Seq<char>, b: Seq<char>) -> bool
    decreases a.len(),
{
    if b.len() == 0 {
        false
    } else if a.len() == 0 {
        true
    } else if a[0] != b[0] {
        (a[0] as u32) < (b[0] as u32)
    } else {
        text_lt(a.drop_first(), b.drop_first())
    }
}

/// No text sorts before itself.
pub proof fn lemma_text_lt_irreflexive(a: Seq<char>)
    ensures
        !text_lt(a, a),
    decreases a.len(),
{
    if a.len() > 0 {
        lemma_text_lt_irreflexive(a.drop_first());
    }
}

/// The order of texts is transitive.
pub proof fn lemma_text_lt_transitive(a: Seq<char>, b: Seq<char>, c: Seq<char>)
    requires
        text_lt(a, b),
        text_lt(b, c),
    ensures
        text_lt(a, c),
    decreases a.len(),
{
    if a.len() > 0 && a[0] == b[0] && b[0] == c[0] {
        lemma_text_lt_transitive(a.drop_first(), b.drop_first(), c.drop_first());
    }
}

/// Of two different texts one sorts before the other.
pub proof fn lemma_text_lt_total(a: Seq<char>, b: Seq<char>)
    ensures
        text_lt(a, b) || a == b || text_lt(b, a),
    decreases a.len(),
{
    if a.len() == 0 || b.len() == 0 {
        if a.len() == 0 && b.len() == 0 {
            assert(a =~= b);
        }
    } else if a[0] == b[0] {
        lemma_text_lt_total(a.drop_first(), b.drop_first());
        if a.drop_first() == b.drop_first() {
            assert(a =~= seq![a[0]] + a.drop_first());
            assert(b =~= seq![b[0]] + b.drop_first());
        }
    } else if a[0] as u32 == b[0] as u32 {
        vstd::utf8::char_u32_cast(a[0], a[0] as u32);
        vstd::utf8::char_u32_cast(b[0], b[0] as u32);
    }
}

/// Whether `text` begins with `prefix`.
pub fn has_prefix(text: &str, prefix: &str) -> (b: bool)
    ensures
        b == prefix@.is_prefix_of(text@),
{
    let mut rest = text.chars();
    let mut wanted = prefix.chars();
    let ghost mut k: int = 0;
    loop
        invariant
            0 <= k <= prefix@.len(),
            k <= text@.len(),
            rest.remaining() == text@.skip(k),
            wanted.remaining() == prefix@.skip(k),
            text@.take(k) == prefix@.take(k),
        decreases prefix@.len() - k,
    {
        match wanted.next() {
            None => {
                assert(prefix@.take(k) == prefix@);
                return true;
            },
            Some(pc) => {
                match rest.next() {
                    None => {
                        return false;
                    },
                    Some(tc) => {
                        if tc != pc {
                            assert(text@.subrange(0, prefix@.len() as int)[k] == text@[k]
                                || text@.len() < prefix@.len());
                            return false;
                        }
                        proof {
                            assert(text@.take(k + 1) == text@.take(k).push(text@[k]));
                            assert(prefix@.take(k + 1) == prefix@.take(k).push(prefix@[k]));
                            k = k + 1;
                        }
                    },
                }
            },
        }
    }
}

/// The characters of `text`, one by one.
pub fn chars_of(text: &str) -> (chars: Vec<char>)
    ensures
        chars@ == text@,
{
    let mut rest = text.chars();
    let mut chars: Vec<char> = Vec::new();
    loop
        invariant
            chars@.len() <= text@.len(),
            rest.remaining() == text@.skip(chars@.len() as int),
            chars@ == text@.take(chars@.len() as int),
        decreases text@.len() - chars@.len(),
    {
        match rest.next() {
            None => {
                assert(text@.take(chars@.len() as int) == text@);
                return chars;
            },
            Some(c) => {
                proof {
                    let k = chars@.len() as int;
                    assert(text@.take(k + 1) == text@.take(k).push(text@[k]));
                }
                chars.push(c);
            },
        }
    }
}

/// Whether `part` occurs in `text` as a run of neighbouring characters.
pub open spec fn has_infix(text: Seq<char>, part: Seq<char>) -> bool {
    exists|i: int|
        0 <= i && i + part.len() <= text.len() && #[trigger] text.subrange(i, i + part.len())
            == part
}

/// Whether `part` occurs in `text`.
pub fn contains_text(text: &str, part: &str) -> (found: bool)
    ensures
        found == has_infix(text@, part@),
{
    let hay = chars_of(text);
    let needle = chars_of(part);
    if needle.len() > hay.len() {
        return false;
    }
    let last = hay.len() - needle.len();
    let mut i: usize = 0;
    while i <= last
        invariant
            hay@ == text@,
            needle@ == part@,
            last + needle@.len() == hay@.len(),
            hay@.len() <= usize::MAX,
            0 <= i <= last + 1,
            forall|j: int| 0 <= j < i ==> #[trigger] hay@.subrange(j, j + needle@.len()) != needle@,
        decreases last + 1 - i,
    {
        let mut k: usize = 0;
        while k < needle.len() && hay[i + k] == needle[k]
            invariant
                last + needle@.len() == hay@.len(),
                hay@.len() <= usize::MAX,
                i <= last,
                0 <= k <= needle@.len(),
                forall|m: int| 0 <= m < k ==> hay@[i + m] == needle@[m],
            decreases needle@.len() - k,
        {
            k = k + 1;
        }
        if k == needle.len() {
            assert(hay@.subrange(i as int, i + needle@.len()) =~= needle@);
            return true;
        }
        assert(hay@.subrange(i as int, i + needle@.len())[k as int] != needle@[k as int]);
        i = i + 1;
    }
    false
}

/// The text in lower case, as the Unicode character database maps each
/// character.
pub uninterp spec fn lowercase_text(text: Seq<char>) -> Seq<char>;

/// Calls `str::to_lowercase`.
///
/// The result is a function of the characters alone; the contract names it
/// and claims nothing of its shape.
#[verifier::external_body]
fn str_to_lowercase(text: &str) -> (lower: String)
    ensures
        lower@ == lowercase_text(text@),
{
    text.to_lowercase()
}

/// The text in lower case.
pub fn to_lowercase(text: &str) -> (lower: String)
    ensures
        lower@ == lowercase_text(text@),
{
    str_to_lowercase(text)
}

/// Whether `text` holds a dash.
pub fn holds_dash(text: &str) -> (found: bool)
    ensures
        found == text@.contains('-'),
{
    let chars = chars_of(text);
    let mut i: usize = 0;
    while i < chars.len()
        invariant
            chars@ == text@,
            0 <= i <= chars@.len(),
            forall|j: int| 0 <= j < i ==> chars@[j] != '-',
        decreases chars@.len() - i,
    {
        if chars[i] == '-' {
            return true;
        }
        i = i + 1;
    }
    false
}

/// Whether two texts are the same.
pub fn text_eq(a: &str, b: &str) -> (same: bool)
    ensures
        same == (a@ == b@),
{
    let same = has_prefix(a, b) && has_prefix(b, a);
    proof {
        if same {
            assert(a@ =~= b@);
        }
    }
    same
}

/// The text of one decimal digit.
fn digit_str(d: u64) -> (s: &'static str)
    requires
        d < 10,
    ensures
        s@ == seq![digit_char(d as nat)],
{
    proof {
        reveal_strlit("0");
        reveal_strlit("1");
        reveal_strlit("2");
        reveal_strlit("3");
        reveal_strlit("4");
        reveal_strlit("5");
        reveal_strlit("6");
        reveal_strlit("7");
        reveal_strlit("8");
        reveal_strlit("9");
    }
    let s = if d == 0 {
        "0"
    } else if d == 1 {
        "1"
    } else if d == 2 {
        "2"
    } else if d == 3 {
        "3"
    } else if d == 4 {
        "4"
    } else if d == 5 {
        "5"
    } else if d == 6 {
        "6"
    } else if d == 7 {
        "7"
    } else if d == 8 {
        "8"
    } else {
        "9"
    };
    assert(s@ =~= seq![digit_char(d as nat)]);
    s
}

/// Appends the decimal numeral of `n` to `out`.
pub fn push_decimal(out: &mut String, n: u64)
    ensures
        final(out)@ == old(out)@ + decimal_text(n as nat),
    decreases n,
{
    if n >= 10 {
        push_decimal(out, n / 10);
    }
    out.append(digit_str(n % 10));
    assert(out@ =~= old(out)@ + decimal_text(n as nat));
}

} // verus!
