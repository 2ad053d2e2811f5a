//! Text helpers: decimal numbers, dictionary order, lower case and the
//! decoding of raw file names.
use vstd::prelude::*;

verus! {

/// The character of a decimal digit.
pub open spec fn digit(d: nat) -> char {
    (48 + d) as char
}

/// The decimal notation of a number, without leading zeros.
pub open spec fn decimal(n: nat) -> Seq<char>
    decreases n,
{
    if n < 10 {
        seq![digit(n)]
    } else {
        decimal(n / 10).push(digit(n % 10))
    }
}

/// The decimal notation of a number, filled up with zeros to two digits.
pub open spec fn two_digits(n: nat) -> Seq<char> {
    if n < 10 {
        seq!['0'] + decimal(n)
    } else {
        decimal(n)
    }
}

/// Dictionary order on text, by the code points of the characters; a proper
/// prefix comes first.
pub open spec fn text_before(a: Seq<char>, b: Seq<char>) -> bool
    decreases a.len(),
{
    if b.len() == 0 {
        false
    } else if a.len() == 0 {
        true
    } else if a[0] != b[0] {
        (a[0] as int) < (b[0] as int)
    } else {
        text_before(a.drop_first(), b.drop_first())
    }
}

/// The lower case of a text by the Unicode tables of the standard library.
pub uninterp spec fn lowercase(s: Seq<char>) -> Seq<char>;

/// The text that stands for raw bytes, with a replacement character for what is
/// no UTF-8.
pub uninterp spec fn lossy_utf8(bytes: Seq<u8>) -> Seq<char>;

/// The small letter of an ASCII capital, and any other character as it is.
pub open spec fn ascii_small(c: char) -> char {
    if 'A' <= c <= 'Z' {
        (c as u32 + 32) as char
    } else {
        c
    }
}

/// A text without regard to case: an ASCII text with small letters for its
/// capitals, and any other text in the lower case of Unicode.
pub open spec fn caseless(s: Seq<char>) -> Seq<char> {
    if vstd::utf8::is_ascii_chars(s) {
        s.map_values(|c: char| ascii_small(c))
    } else {
        lowercase(s)
    }
}

/// The text that shows raw bytes: the characters that they encode where they are
/// UTF-8, and else one with replacement characters.
pub open spec fn shown_text(bytes: Seq<u8>) -> Seq<char> {
    if vstd::utf8::valid_utf8(bytes) {
        vstd::utf8::decode_utf8(bytes)
    } else {
        lossy_utf8(bytes)
    }
}

/// Trusted: `str::to_lowercase`, whose result is a function of the text alone; of
/// ASCII characters it changes the capital letters to small ones, and no others.
#[verifier::external_body]
fn to_lower(s: &str) -> (r: String)
    ensures
        r@ == lowercase(s@),
        vstd::utf8::is_ascii_chars(s@) ==> r@ == s@.map_values(|c: char| ascii_small(c)),
{
    s.to_lowercase()
}

/// Trusted: `String::from_utf8_lossy`, whose result is a function of the bytes
/// alone; valid UTF-8 is decoded as it is.
#[verifier::external_body]
fn decode_lossy(bytes: &[u8]) -> (r: String)
    ensures
        r@ == lossy_utf8(bytes@),
        vstd::utf8::valid_utf8(bytes@) ==> r@ == vstd::utf8::decode_utf8(bytes@),
{
    String::from_utf8_lossy(bytes).into_owned()
}

/// A text without regard to case.
pub fn fold_case(s: &str) -> (r: String)
    ensures
        r@ == caseless(s@),
{
    to_lower(s)
}

/// The text that shows raw bytes.
pub fn show_bytes(bytes: &[u8]) -> (r: String)
    ensures
        r@ == shown_text(bytes@),
{
    decode_lossy(bytes)
}

/// No text comes before itself.
pub proof fn lemma_text_before_irreflexive(a: Seq<char>)
    ensures
        !text_before(a, a),
    decreases a.len(),
{
    if a.len() > 0 {
        lemma_text_before_irreflexive(a.drop_first());
    }
}

/// Of two different texts one comes before the other.
pub proof fn lemma_text_before_total(a: Seq<char>, b: Seq<char>)
    ensures
        text_before(a, b) || text_before(b, a) || a == b,
    decreases a.len(),
{
    if a.len() > 0 && b.len() > 0 {
        if a[0] == b[0] {
            lemma_text_before_total(a.drop_first(), b.drop_first());
            if a.drop_first() == b.drop_first() {
                assert(a =~= seq![a[0]] + a.drop_first());
                assert(b =~= seq![b[0]] + b.drop_first());
            }
        }
    } else if a.len() == 0 && b.len() == 0 {
        assert(a =~= b);
    }
}

/// Dictionary order is transitive.
pub proof fn lemma_text_before_transitive(a: Seq<char>, b: Seq<char>, c: Seq<char>)
    requires
        text_before(a, b),
        text_before(b, c),
    ensures
        text_before(a, c),
    decreases a.len(),
{
    if a.len() > 0 && a[0] == b[0] && b[0] == c[0] {
        lemma_text_before_transitive(a.drop_first(), b.drop_first(), c.drop_first());
    }
}

/// A decimal notation has a digit, and one alone only below ten.
pub proof fn lemma_decimal_len(n: nat)
    ensures
        decimal(n).len() >= 1,
        n < 10 <==> decimal(n).len() == 1,
    decreases n,
{
    if n >= 10 {
        lemma_decimal_len(n / 10);
    }
}

/// Different numbers have different decimal notations.
pub proof fn law_decimal_is_faithful(a: nat, b: nat)
    requires
        decimal(a) == decimal(b),
    ensures
        a == b,
    decreases a,
{
    lemma_decimal_len(a);
    lemma_decimal_len(b);
    if a < 10 {
        assert(decimal(a)[0] == digit(a));
        assert(decimal(b)[0] == digit(b));
    } else {
        assert(decimal(a).last() == digit(a % 10));
        assert(decimal(b).last() == digit(b % 10));
        assert(decimal(a).drop_last() =~= decimal(a / 10));
        assert(decimal(b).drop_last() =~= decimal(b / 10));
        law_decimal_is_faithful(a / 10, b / 10);
    }
}

/// The two places of a number below a hundred.
pub proof fn lemma_two_digits(n: nat)
    requires
        n < 100,
    ensures
        two_digits(n) == seq![digit(n / 10), digit(n % 10)],
{
    if n >= 10 {
        assert(decimal(n / 10) =~= seq![digit(n / 10)]);
    }
    assert(two_digits(n) =~= seq![digit(n / 10), digit(n % 10)]);
}

/// A decimal digit.
pub open spec fn is_digit(c: char) -> bool {
    '0' <= c <= '9'
}

/// A text of decimal digits and nothing else, at least one.
pub open spec fn is_number(s: Seq<char>) -> bool {
    s.len() > 0 && forall|i: int| 0 <= i < s.len() ==> is_digit(#[trigger] s[i])
}

/// The number that a text of digits is read as, each place worth ten times the
/// one behind it.
pub open spec fn read_number(s: Seq<char>) -> int
    decreases s.len(),
{
    if s.len() == 0 {
        0
    } else {
        10 * read_number(s.drop_last()) + (s.last() as int - '0' as int)
    }
}

/// A decimal notation consists of digits, has no zero before other digits, and
/// is read as the number that it writes.
pub proof fn law_decimal_reads_back(n: nat)
    ensures
        is_number(decimal(n)),
        decimal(n).len() > 1 ==> decimal(n)[0] != '0',
        read_number(decimal(n)) == n,
    decreases n,
{
    if n < 10 {
        assert(decimal(n).drop_last() =~= Seq::<char>::empty());
        assert(read_number(Seq::<char>::empty()) == 0);
    } else {
        let rest = decimal(n / 10);
        law_decimal_reads_back(n / 10);
        lemma_decimal_len(n / 10);
        assert(decimal(n).drop_last() =~= rest);
        assert forall|i: int| 0 <= i < decimal(n).len() implies is_digit(
            #[trigger] decimal(n)[i],
        ) by {
            if i < rest.len() {
                assert(decimal(n)[i] == rest[i]);
            }
        }
        assert(decimal(n)[0] == rest[0]);
        if n / 10 < 10 {
            assert(rest[0] == digit(n / 10));
        }
    }
}

/// A number below a hundred is written in two places, both digits, and is read
/// back from them.
pub proof fn law_two_digits_read_back(n: nat)
    requires
        n < 100,
    ensures
        two_digits(n).len() == 2,
        is_number(two_digits(n)),
        read_number(two_digits(n)) == n,
{
    lemma_two_digits(n);
    let s = two_digits(n);
    assert(s.drop_last() =~= seq![digit(n / 10)]);
    assert(s.drop_last().drop_last() =~= Seq::<char>::empty());
    assert(read_number(Seq::<char>::empty()) == 0);
    assert(read_number(s.drop_last()) == n / 10);
}

/// Up to position `k` the texts are equal, and there the first one ends or has
/// the smaller character.
pub open spec fn comes_first_at(a: Seq<char>, b: Seq<char>, k: int) -> bool {
    &&& 0 <= k <= a.len()
    &&& k < b.len()
    &&& forall|i: int| 0 <= i < k ==> a[i] == b[i]
    &&& k == a.len() || a[k] < b[k]
}

/// A text comes before another exactly where, behind a common start, it ends or
/// goes on with a smaller character.
pub proof fn law_dictionary_order(a: Seq<char>, b: Seq<char>)
    ensures
        text_before(a, b) <==> exists|k: int| #[trigger] comes_first_at(a, b, k),
    decreases a.len(),
{
    if a.len() > 0 && b.len() > 0 && a[0] == b[0] {
        let (x, y) = (a.drop_first(), b.drop_first());
        law_dictionary_order(x, y);
        if text_before(x, y) {
            let k = choose|k: int| #[trigger] comes_first_at(x, y, k);
            assert forall|i: int| 0 <= i < k + 1 implies a[i] == b[i] by {
                if i > 0 {
                    assert(x[i - 1] == y[i - 1]);
                }
            }
            assert(comes_first_at(a, b, k + 1));
        }
        if exists|k: int| #[trigger] comes_first_at(a, b, k) {
            let k = choose|k: int| #[trigger] comes_first_at(a, b, k);
            assert(comes_first_at(x, y, k - 1));
        }
    } else if text_before(a, b) {
        assert(comes_first_at(a, b, 0));
    }
}

/// The same character, or the capital and the small form of one ASCII letter.
pub open spec fn same_letter(a: char, b: char) -> bool {
    a == b || ('A' <= a <= 'Z' && b as int == a as int + 32) || ('A' <= b <= 'Z' && a as int
        == b as int + 32)
}

/// ASCII texts are equal without regard to case exactly where they have the same
/// letters in the same places, and none has capitals left. Any other text is
/// taken in the lower case of Unicode.
pub proof fn law_case_is_disregarded(a: Seq<char>, b: Seq<char>)
    ensures
        vstd::utf8::is_ascii_chars(a) && vstd::utf8::is_ascii_chars(b) ==> (caseless(a) == caseless(
            b,
        ) <==> a.len() == b.len() && forall|i: int|
            0 <= i < a.len() ==> same_letter(#[trigger] a[i], b[i])),
        vstd::utf8::is_ascii_chars(a) ==> caseless(a).len() == a.len() && forall|i: int|
            0 <= i < a.len() ==> same_letter(#[trigger] caseless(a)[i], a[i]) && !('A' <= caseless(
                a,
            )[i] <= 'Z'),
        !vstd::utf8::is_ascii_chars(a) ==> caseless(a) == lowercase(a),
{
    let (x, y) = (caseless(a), caseless(b));
    if vstd::utf8::is_ascii_chars(a) && vstd::utf8::is_ascii_chars(b) {
        if x == y {
            assert(x.len() == a.len() && y.len() == b.len());
            assert forall|i: int| 0 <= i < a.len() implies same_letter(#[trigger] a[i], b[i]) by {
                assert(x[i] == ascii_small(a[i]));
                assert(y[i] == ascii_small(b[i]));
            }
        }
        if a.len() == b.len() && forall|i: int|
            0 <= i < a.len() ==> same_letter(#[trigger] a[i], b[i]) {
            assert forall|i: int| 0 <= i < a.len() implies x[i] == y[i] by {
                assert(same_letter(a[i], b[i]));
            }
            assert(x =~= y);
        }
    }
}

/// The bytes that encode a text are shown as that text; bytes that encode none
/// are shown as the lossy decoding has them.
pub proof fn law_encoded_text_is_shown(s: Seq<char>, bytes: Seq<u8>)
    ensures
        shown_text(vstd::utf8::encode_utf8(s)) == s,
        !vstd::utf8::valid_utf8(bytes) ==> shown_text(bytes) == lossy_utf8(bytes),
{
    vstd::utf8::encode_utf8_valid_utf8(s);
    vstd::utf8::encode_utf8_decode_utf8(s);
}

fn push_digit(out: &mut String, d: u64)
    requires
        d < 10,
    ensures
        final(out)@ == old(out)@.push(digit(d as nat)),
{
    let s: &str = match d {
        0 => "0",
        1 => "1",
        2 => "2",
        3 => "3",
        4 => "4",
        5 => "5",
        6 => "6",
        7 => "7",
        8 => "8",
        _ => "9",
    };
    proof {
        reveal_strlit("0");
        reveal_strlit("1");
        reveal_strlit("2");
        reveal_strlit("3");
        reveal_strlit("4");
        reveal_strlit("5");
        reveal_strlit("6");
        reveal_strlit("7");
        reveal_strlit("8");
        reveal_strlit("9");
        assert(s@ =~= seq![digit(d as nat)]);
    }
    out.append(s);
    assert(out@ =~= old(out)@.push(digit(d as nat)));
}

/// Appends the decimal notation of `n`.
pub fn push_decimal(out: &mut String, n: u64)
    ensures
        final(out)@ == old(out)@ + decimal(n as nat),
    decreases n,
{
    if n >= 10 {
        push_decimal(out, n / 10);
    }
    push_digit(out, n % 10);
    assert(out@ =~= old(out)@ + decimal(n as nat));
}

/// Appends the decimal notation of `n`, filled up to two digits.
pub fn push_two_digits(out: &mut String, n: u64)
    ensures
        final(out)@ == old(out)@ + two_digits(n as nat),
{
    if n < 10 {
        push_digit(out, 0);
    }
    push_decimal(out, n);
    assert(out@ =~= old(out)@ + two_digits(n as nat));
}

/// Tells whether `a` comes before `b` in the dictionary.
pub fn precedes(a: &str, b: &str) -> (r: bool)
    ensures
        r == text_before(a@, b@),
{
    let mut left = a.chars();
    let mut right = b.chars();
    let ghost mut k: int = 0;
    assert(a@.skip(0) =~= a@);
    assert(b@.skip(0) =~= b@);
    loop
        invariant
            0 <= k <= a@.len(),
            0 <= k <= b@.len(),
            vstd::std_specs::iter::IteratorSpec::remaining(&left) == a@.skip(k),
            vstd::std_specs::iter::IteratorSpec::remaining(&right) == b@.skip(k),
            text_before(a@, b@) == text_before(a@.skip(k), b@.skip(k)),
        decreases a@.len() - k,
    {
        match (left.next(), right.next()) {
            (_, None) => {
                return false;
            },
            (None, Some(_)) => {
                return true;
            },
            (Some(x), Some(y)) => {
                if x != y {
                    return x < y;
                }
                proof {
                    assert(a@.skip(k).drop_first() =~= a@.skip(k + 1));
                    assert(b@.skip(k).drop_first() =~= b@.skip(k + 1));
                    k = k + 1;
                }
            },
        }
    }
}

} // verus!
