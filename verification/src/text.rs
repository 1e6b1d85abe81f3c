//! Small verified helpers on strings: comparison, prefixes, splitting and
//! decimal formatting, all stated over the sequence of characters.
use vstd::prelude::*;
use vstd::std_specs::iter::IteratorSpec;
use vstd::string::*;

verus! {

broadcast use vstd::string::group_string_axioms;

/// `p` is a prefix of `s`.
pub open spec fn is_prefix(p: Seq<char>, s: Seq<char>) -> bool {
    p.len() <= s.len() && s.subrange(0, p.len() as int) == p
}

/// The characters of `s`, in order.
pub fn to_chars(s: &str) -> (v: Vec<char>)
    ensures
        v@ == s@,
{
    let n = s.unicode_len();
    let mut v: Vec<char> = Vec::new();
    let mut rest = s.chars();
    let mut i: usize = 0;
    while i < n
        invariant
            i <= n,
            n == s@.len(),
            v@.len() == i,
            rest.obeys_prophetic_iter_laws(),
            v@ + rest.remaining() == s@,
        decreases n - i,
    {
        let ghost before = rest.remaining();
        match rest.next() {
            Some(c) => {
                v.push(c);
                proof {
                    assert(before =~= seq![c] + rest.remaining());
                    assert(v@ + rest.remaining() =~= s@);
                }
            },
            None => {
                proof {
                    assert(before.len() == n - i);
                }
            },
        }
        i += 1;
    }
    proof {
        assert(rest.remaining().len() == 0);
        assert(v@ =~= s@);
    }
    v
}

/// Equality of two string slices, character by character.
pub fn str_eq(a: &str, b: &str) -> (r: bool)
    ensures
        r == (a@ == b@),
{
    let x = a.to_owned();
    let y = b.to_owned();
    x == y
}

/// Whether `s` begins with `prefix`.
pub fn starts_with(s: &str, prefix: &str) -> (r: bool)
    ensures
        r == is_prefix(prefix@, s@),
{
    let n = s.unicode_len();
    let m = prefix.unicode_len();
    if m > n {
        return false;
    }
    let head = s.substring_char(0, m);
    let r = str_eq(head, prefix);
    r
}

/// `a` and `b` agree on their first `k` characters.
pub open spec fn common_prefix(a: Seq<char>, b: Seq<char>, k: int) -> bool {
    &&& 0 <= k <= a.len()
    &&& k <= b.len()
    &&& forall|i: int| 0 <= i < k ==> a[i] == b[i]
}

/// `a` comes before `b` in the order of dictionaries, character by
/// character by code point. It is the order of the strings' bytes too.
pub open spec fn lex_lt(a: Seq<char>, b: Seq<char>) -> bool {
    exists|k: int| #[trigger]
        common_prefix(a, b, k) && (k == a.len() && k < b.len() || (k < a.len() && k < b.len() && (
        a[k] as int) < (b[k] as int)))
}

/// No string comes before itself.
pub proof fn lemma_lex_irreflexive(a: Seq<char>)
    ensures
        !lex_lt(a, a),
{
}

/// Of two different strings one comes before the other.
pub proof fn lemma_lex_total(a: Seq<char>, b: Seq<char>)
    ensures
        a == b || lex_lt(a, b) || lex_lt(b, a),
{
    if a != b {
        let k = first_difference(a, b, 0);
        lemma_first_difference(a, b, 0);
        assert(common_prefix(a, b, k));
        assert(common_prefix(b, a, k));
        if k < a.len() && k < b.len() {
            assert(a[k] != b[k]);
        } else if k == a.len() && k == b.len() {
            assert(a =~= b);
        }
    }
}

/// The first index from `from` on at which `a` and `b` differ, or the length
/// of the shorter.
pub open spec fn first_difference(a: Seq<char>, b: Seq<char>, from: int) -> int
    decreases a.len() - from,
{
    if from < 0 || from >= a.len() || from >= b.len() || a[from] != b[from] {
        from
    } else {
        first_difference(a, b, from + 1)
    }
}

/// Up to their first difference two strings agree.
pub proof fn lemma_first_difference(a: Seq<char>, b: Seq<char>, from: int)
    requires
        common_prefix(a, b, from),
    ensures
        common_prefix(a, b, first_difference(a, b, from)),
        ({
            let k = first_difference(a, b, from);
            k < a.len() && k < b.len() ==> a[k] != b[k]
        }),
    decreases a.len() - from,
{
    if from >= a.len() || from >= b.len() || a[from] != b[from] {
    } else {
        lemma_first_difference(a, b, from + 1);
    }
}

/// The order is transitive.
pub proof fn lemma_lex_trans(a: Seq<char>, b: Seq<char>, c: Seq<char>)
    requires
        lex_lt(a, b),
        lex_lt(b, c),
    ensures
        lex_lt(a, c),
{
    let k1 = choose|k: int| #[trigger]
        common_prefix(a, b, k) && (k == a.len() && k < b.len() || (k < a.len() && k < b.len() && (
        a[k] as int) < (b[k] as int)));
    let k2 = choose|k: int| #[trigger]
        common_prefix(b, c, k) && (k == b.len() && k < c.len() || (k < b.len() && k < c.len() && (
        b[k] as int) < (c[k] as int)));
    let k = if k1 <= k2 { k1 } else { k2 };
    assert(common_prefix(a, c, k));
}

/// The code point of a character.
pub fn code_point(c: char) -> (r: u32)
    ensures
        r as int == c as int,
{
    c as u32
}

/// Whether `a` comes before `b` in the order of dictionaries.
pub fn lex_less(a: &str, b: &str) -> (r: bool)
    ensures
        r == lex_lt(a@, b@),
{
    let x = to_chars(a);
    let y = to_chars(b);
    let mut i: usize = 0;
    while i < x.len() && i < y.len()
        invariant
            x@ == a@,
            y@ == b@,
            common_prefix(a@, b@, i as int),
        decreases x.len() - i,
    {
        let c: char = x[i];
        let d: char = y[i];
        let p = code_point(c);
        let q = code_point(d);
        if p < q {
            return true;
        }
        if p > q {
            proof {
                assert(common_prefix(b@, a@, i as int));
                assert(lex_lt(b@, a@));
                if lex_lt(a@, b@) {
                    lemma_lex_trans(a@, b@, a@);
                }
            }
            return false;
        }
        assert(c == d);
        i += 1;
    }
    if i < y.len() {
        true
    } else {
        proof {
            if i < x.len() {
                assert(common_prefix(b@, a@, i as int));
                assert(lex_lt(b@, a@));
                if lex_lt(a@, b@) {
                    lemma_lex_trans(a@, b@, a@);
                }
            } else {
                assert(a@ =~= b@);
            }
        }
        false
    }
}

/// The character of a decimal digit.
pub open spec fn digit_char(d: nat) -> char {
    if d == 0 {
        '0'
    } else if d == 1 {
        '1'
    } else if d == 2 {
        '2'
    } else if d == 3 {
        '3'
    } else if d == 4 {
        '4'
    } else if d == 5 {
        '5'
    } else if d == 6 {
        '6'
    } else if d == 7 {
        '7'
    } else if d == 8 {
        '8'
    } else {
        '9'
    }
}

/// The decimal digits of `n`, without leading zeros.
pub open spec fn decimal(n: nat) -> Seq<char>
    decreases n,
{
    if n < 10 {
        seq![digit_char(n)]
    } else {
        decimal(n / 10).push(digit_char(n % 10))
    }
}

/// `count` zeros.
pub open spec fn zeros(count: nat) -> Seq<char> {
    Seq::new(count, |i: int| '0')
}

/// The decimal digits of `n`, with zeros in front up to `width` characters.
pub open spec fn padded(n: nat, width: nat) -> Seq<char> {
    if decimal(n).len() >= width {
        decimal(n)
    } else {
        zeros((width - decimal(n).len()) as nat) + decimal(n)
    }
}

/// One decimal digit as a string.
fn digit_str(d: u64) -> (s: &'static str)
    requires
        d < 10,
    ensures
        s@ == seq![digit_char(d as nat)],
{
    proof {
        reveal_strlit("0");
        reveal_strlit("1");
        reveal_strlit("2");
        reveal_strlit("3");
        reveal_strlit("4");
        reveal_strlit("5");
        reveal_strlit("6");
        reveal_strlit("7");
        reveal_strlit("8");
        reveal_strlit("9");
    }
    let s = if d == 0 {
        "0"
    } else if d == 1 {
        "1"
    } else if d == 2 {
        "2"
    } else if d == 3 {
        "3"
    } else if d == 4 {
        "4"
    } else if d == 5 {
        "5"
    } else if d == 6 {
        "6"
    } else if d == 7 {
        "7"
    } else if d == 8 {
        "8"
    } else {
        "9"
    };
    assert(s@ =~= seq![digit_char(d as nat)]);
    s
}

/// Appends the decimal digits of `n` to `out`.
pub fn append_decimal(out: &mut String, n: u64)
    ensures
        final(out)@ == old(out)@ + decimal(n as nat),
    decreases n,
{
    if n >= 10 {
        append_decimal(out, n / 10);
    }
    let ghost mid = out@;
    out.append(digit_str(n % 10));
    proof {
        if n >= 10 {
            assert(out@ =~= old(out)@ + decimal((n / 10) as nat).push(digit_char((n % 10) as nat)));
        } else {
            assert(out@ =~= old(out)@ + seq![digit_char(n as nat)]);
        }
    }
}

/// The number of decimal digits of `n`.
pub fn decimal_len(n: u64) -> (len: usize)
    ensures
        len == decimal(n as nat).len(),
        1 <= len <= 20,
    decreases n,
{
    if n >= 10 {
        let rest = decimal_len(n / 10);
        proof {
            lemma_decimal_len_bound(n);
        }
        rest + 1
    } else {
        1
    }
}

/// A number below `10^k` has at most `k` digits; a `u64` has at most 20.
pub proof fn lemma_decimal_len_bound(n: u64)
    ensures
        decimal(n as nat).len() <= 20,
{
    reveal_with_fuel(pow10, 21);
    assert(pow10(20) == 100_000_000_000_000_000_000nat);
    lemma_decimal_len_pow(n as nat, 20);
}

/// Ten to the power of `k`.
pub open spec fn pow10(k: nat) -> nat
    decreases k,
{
    if k == 0 {
        1
    } else {
        10 * pow10((k - 1) as nat)
    }
}

proof fn lemma_decimal_len_pow(n: nat, k: nat)
    requires
        k >= 1,
        n < pow10(k),
    ensures
        decimal(n).len() <= k,
    decreases k,
{
    if n >= 10 {
        assert(pow10(k) == 10 * pow10((k - 1) as nat));
        if k == 1 {
            assert(pow10(0) == 1);
        } else {
            lemma_decimal_len_pow(n / 10, (k - 1) as nat);
        }
    }
}

/// Appends the decimal digits of `n` to `out`, with zeros in front up to
/// `width` characters.
pub fn append_padded(out: &mut String, n: u64, width: usize)
    ensures
        final(out)@ == old(out)@ + padded(n as nat, width as nat),
{
    let len = decimal_len(n);
    let ghost start = out@;
    let mut i: usize = len;
    while i < width
        invariant
            len <= i,
            len < width ==> i <= width,
            len >= width ==> i == len,
            out@ == start + zeros((i - len) as nat),
        decreases width - i,
    {
        let ghost before = out@;
        out.append("0");
        proof {
            reveal_strlit("0");
            assert(out@ =~= start + zeros((i + 1 - len) as nat));
        }
        i += 1;
    }
    let ghost mid = out@;
    append_decimal(out, n);
    proof {
        if len >= width {
            assert(zeros(0) =~= Seq::<char>::empty());
            assert(i == len);
            assert(mid =~= start + zeros(0));
            assert(mid =~= start);
            assert(padded(n as nat, width as nat) == decimal(n as nat));
        } else {
            assert(out@ =~= start + (zeros((width - len) as nat) + decimal(n as nat)));
        }
    }
}

/// The decimal digits of `n` as a string.
pub fn decimal_string(n: u64) -> (s: String)
    ensures
        s@ == decimal(n as nat),
{
    let mut s = String::new();
    append_decimal(&mut s, n);
    assert(s@ =~= decimal(n as nat));
    s
}

/// The index of the first `sep` in `s`, or the length of `s` where it holds
/// none.
pub open spec fn first_index_of(s: Seq<char>, sep: char) -> int
    decreases s.len(),
{
    if s.len() == 0 || s[0] == sep {
        0
    } else {
        1 + first_index_of(s.drop_first(), sep)
    }
}

/// The pieces of `s` between occurrences of `sep`, without the empty ones.
pub open spec fn split_nonempty(s: Seq<char>, sep: char) -> Seq<Seq<char>>
    decreases s.len(),
{
    if s.len() == 0 {
        Seq::empty()
    } else {
        let k = first_index_of(s, sep);
        if 0 <= k < s.len() {
            let rest = split_nonempty(s.subrange(k + 1, s.len() as int), sep);
            if k > 0 {
                seq![s.subrange(0, k)] + rest
            } else {
                rest
            }
        } else {
            seq![s]
        }
    }
}

/// Where the first `k` characters are no `sep`, the first `sep` stands at
/// `k` or behind.
pub proof fn lemma_first_index_of(s: Seq<char>, sep: char, k: int)
    requires
        0 <= k <= s.len(),
        forall|i: int| 0 <= i < k ==> s[i] != sep,
        k < s.len() ==> s[k] == sep,
    ensures
        first_index_of(s, sep) == k,
    decreases k,
{
    if k > 0 {
        let t = s.drop_first();
        assert forall|i: int| 0 <= i < k - 1 implies t[i] != sep by {
            assert(t[i] == s[i + 1]);
        }
        if k < s.len() {
            assert(t[k - 1] == s[k]);
        }
        lemma_first_index_of(t, sep, k - 1);
    }
}

/// The pieces of `s` between occurrences of `sep`, without the empty ones.
pub fn split_pieces(s: &str, sep: char) -> (pieces: Vec<String>)
    ensures
        pieces@.len() == split_nonempty(s@, sep).len(),
        forall|i: int|
            0 <= i < pieces@.len() ==> (#[trigger] pieces@[i])@ == split_nonempty(s@, sep)[i],
{
    let chars = to_chars(s);
    let n = chars.len();
    let mut pieces: Vec<String> = Vec::new();
    let ghost mut done: Seq<Seq<char>> = Seq::empty();
    let mut begin: usize = 0;
    let mut i: usize = 0;
    proof {
        assert(s@.subrange(0, n as int) =~= s@);
        assert(done + split_nonempty(s@, sep) =~= split_nonempty(s@, sep));
    }
    while i < n
        invariant
            chars@ == s@,
            n == chars.len(),
            begin <= i <= n,
            forall|j: int| begin <= j < i ==> chars[j] != sep,
            pieces@.len() == done.len(),
            forall|j: int| 0 <= j < pieces@.len() ==> (#[trigger] pieces@[j])@ == done[j],
            split_nonempty(s@, sep) == done + split_nonempty(
                s@.subrange(begin as int, n as int),
                sep,
            ),
        decreases n - i,
    {
        if chars[i] == sep {
            let ghost tail = s@.subrange(begin as int, n as int);
            proof {
                assert forall|j: int| 0 <= j < i - begin implies tail[j] != sep by {
                    assert(tail[j] == chars[begin + j]);
                }
                assert(tail[i - begin] == chars[i as int]);
                lemma_first_index_of(tail, sep, i - begin);
                assert(tail.subrange(i - begin + 1, tail.len() as int) =~= s@.subrange(
                    i + 1,
                    n as int,
                ));
                assert(tail.subrange(0, i - begin) =~= s@.subrange(begin as int, i as int));
            }
            if i > begin {
                let piece = String::from_str(s.substring_char(begin, i));
                proof {
                    done = done.push(piece@);
                }
                pieces.push(piece);
                proof {
                    assert(split_nonempty(s@, sep) =~= done + split_nonempty(
                        s@.subrange(i + 1, n as int),
                        sep,
                    ));
                }
            }
            begin = i + 1;
        }
        i += 1;
    }
    let ghost tail = s@.subrange(begin as int, n as int);
    if begin < n {
        proof {
            assert forall|j: int| 0 <= j < tail.len() implies tail[j] != sep by {
                assert(tail[j] == chars[begin + j]);
            }
            lemma_first_index_of(tail, sep, tail.len() as int);
        }
        let piece = String::from_str(s.substring_char(begin, n));
        proof {
            done = done.push(piece@);
        }
        pieces.push(piece);
        proof {
            assert(split_nonempty(s@, sep) =~= done);
        }
    } else {
        proof {
            assert(tail.len() == 0);
            assert(split_nonempty(s@, sep) =~= done);
        }
    }
    pieces
}

/// The part of `s` behind its first `skip` characters; nothing where `s`
/// has no more than `skip` characters.
pub fn skip_chars(s: &str, skip: usize) -> (rest: &str)
    ensures
        rest@ == (if skip <= s@.len() {
            s@.subrange(skip as int, s@.len() as int)
        } else {
            Seq::<char>::empty()
        }),
{
    let n = s.unicode_len();
    if skip > n {
        let rest = s.substring_char(n, n);
        assert(rest@ =~= Seq::<char>::empty());
        rest
    } else {
        s.substring_char(skip, n)
    }
}

} // verus!
