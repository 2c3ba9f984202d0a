use vstd::prelude::*;

verus! {

/// ASCII whitespace: space, tab, line feed, form feed, carriage return.
pub open spec fn is_blank(b: u8) -> bool {
    b == 32 || b == 9 || b == 10 || b == 12 || b == 13
}

/// An ASCII decimal digit.
pub open spec fn is_digit(b: u8) -> bool {
    48 <= b <= 57
}

/// The length of the run of non-blank bytes that `s` starts with.
pub open spec fn word_len(s: Seq<u8>) -> nat
    decreases s.len(),
{
    if s.len() == 0 || is_blank(s[0]) { 0 } else { 1 + word_len(s.drop_first()) }
}

/// The whitespace-separated fields of `s`, in order.
pub open spec fn fields(s: Seq<u8>) -> Seq<Seq<u8>>
    decreases s.len(),
{
    if s.len() == 0 {
        Seq::empty()
    } else if is_blank(s[0]) {
        fields(s.drop_first())
    } else {
        let n = word_len(s);
        if n == 0 || n > s.len() {
            Seq::empty()
        } else {
            seq![s.take(n as int)] + fields(s.skip(n as int))
        }
    }
}

/// The value of a string of decimal digits, most significant first.
pub open spec fn decimal(w: Seq<u8>) -> int
    decreases w.len(),
{
    if w.len() == 0 { 0 } else { decimal(w.drop_last()) * 10 + (w.last() - 48) }
}

/// A field that is a decimal number that fits in `u64`.
pub open spec fn is_number(w: Seq<u8>) -> bool {
    &&& w.len() > 0
    &&& forall|i: int| 0 <= i < w.len() ==> is_digit(#[trigger] w[i])
    &&& decimal(w) <= u64::MAX
}

/// A saved record: at least two fields, every field a number; the seed is
/// the first and the branch count the second.
pub open spec fn save_record(s: Seq<u8>) -> Option<(u64, u64)> {
    let fs = fields(s);
    if fs.len() >= 2 && forall|i: int| 0 <= i < fs.len() ==> is_number(#[trigger] fs[i]) {
        Some((decimal(fs[0]) as u64, decimal(fs[1]) as u64))
    } else {
        None
    }
}

proof fn lemma_word_len(t: Seq<u8>, n: int)
    requires
        0 <= n <= t.len(),
        forall|k: int| 0 <= k < n ==> !is_blank(#[trigger] t[k]),
        n == t.len() || is_blank(t[n]),
    ensures
        word_len(t) == n,
    decreases n,
{
    if n > 0 {
        lemma_word_len(t.drop_first(), n - 1);
    }
}

proof fn lemma_decimal_digits_nonneg(w: Seq<u8>)
    requires
        forall|i: int| 0 <= i < w.len() ==> is_digit(#[trigger] w[i]),
    ensures
        decimal(w) >= 0,
    decreases w.len(),
{
    if w.len() > 0 {
        lemma_decimal_digits_nonneg(w.drop_last());
    }
}

/// Reads a saved record (see `save_record`); `None` when the text is not one.
pub fn parse_save(s: &[u8]) -> (r: Option<(u64, u64)>)
    ensures
        r == save_record(s@),
{
    let ghost mut done: Seq<Seq<u8>> = Seq::empty();
    let mut count: usize = 0;
    let mut first: u64 = 0;
    let mut second: u64 = 0;
    let mut i: usize = 0;
    assert(s@.skip(0) =~= s@);
    while i < s.len()
        invariant
            i <= s@.len(),
            fields(s@) == done + fields(s@.skip(i as int)),
            count == done.len(),
            count <= i,
            forall|k: int| 0 <= k < done.len() ==> is_number(#[trigger] done[k]),
            count >= 1 ==> first == decimal(done[0]),
            count >= 2 ==> second == decimal(done[1]),
        decreases s@.len() - i,
    {
        if s[i] == 32 || s[i] == 9 || s[i] == 10 || s[i] == 12 || s[i] == 13 {
            assert(s@.skip(i as int).drop_first() =~= s@.skip(i + 1));
            i += 1;
        } else {
            let start = i;
            let mut v: u64 = 0;
            let mut big = false;
            let mut digits = true;
            let ghost mut val: int = 0;
            while i < s.len() && !(s[i] == 32 || s[i] == 9 || s[i] == 10 || s[i] == 12 || s[i] == 13)
                invariant
                    start < s@.len(),
                    count <= start,
                    !is_blank(s@[start as int]),
                    start <= i <= s@.len(),
                    forall|k: int| start <= k < i ==> !is_blank(#[trigger] s@[k]),
                    digits == forall|k: int| start <= k < i ==> is_digit(#[trigger] s@[k]),
                    val == decimal(s@.subrange(start as int, i as int)),
                    digits ==> (big <==> val > u64::MAX),
                    digits && !big ==> v == val,
                decreases s@.len() - i,
            {
                let b = s[i];
                let ghost w = s@.subrange(start as int, i as int);
                assert(s@.subrange(start as int, i + 1).drop_last() =~= w);
                if digits && 48 <= b && b <= 57 {
                    proof {
                        lemma_decimal_digits_nonneg(w);
                    }
                    let d = (b - 48) as u64;
                    if !big {
                        if v <= (u64::MAX - d) / 10 {
                            v = v * 10 + d;
                        } else {
                            big = true;
                        }
                    }
                } else {
                    digits = false;
                }
                proof {
                    val = decimal(s@.subrange(start as int, i + 1));
                }
                i += 1;
            }
            proof {
                lemma_word_len(s@.skip(start as int), i - start);
                let t = s@.skip(start as int);
                assert(t.take(i - start) =~= s@.subrange(start as int, i as int));
                assert(t.skip(i - start) =~= s@.skip(i as int));
            }
            if !digits || big {
                proof {
                    let w = s@.subrange(start as int, i as int);
                    let fs = fields(s@);
                    assert(fs[done.len() as int] == w);
                    if !digits {
                        let k = choose|k: int| start <= k < i && !is_digit(#[trigger] s@[k]);
                        assert(!is_digit(w[k - start]));
                    }
                    assert(!is_number(fs[done.len() as int]));
                }
                return None;
            }
            proof {
                let w = s@.subrange(start as int, i as int);
                assert(is_number(w));
                let done2 = done.push(w);
                assert(done + (seq![w] + fields(s@.skip(i as int))) =~= done2 + fields(s@.skip(i as int)));
                done = done2;
            }
            if count == 0 {
                first = v;
            } else if count == 1 {
                second = v;
            }
            count = count + 1;
        }
    }
    proof {
        assert(s@.skip(i as int) =~= Seq::<u8>::empty());
        assert(done + Seq::<Seq<u8>>::empty() =~= done);
    }
    if count >= 2 {
        Some((first, second))
    } else {
        None
    }
}

/// The decimal digits of `n`, most significant first, without leading zeros.
pub open spec fn digits(n: nat) -> Seq<u8>
    decreases n,
{
    if n < 10 { seq![(48 + n) as u8] } else { digits(n / 10).push((48 + n % 10) as u8) }
}

proof fn lemma_digits(n: nat)
    ensures
        digits(n).len() > 0,
        forall|i: int| 0 <= i < digits(n).len() ==> is_digit(#[trigger] digits(n)[i]),
        decimal(digits(n)) == n,
    decreases n,
{
    let d = digits(n);
    if n >= 10 {
        lemma_digits(n / 10);
        assert(d.drop_last() =~= digits(n / 10));
        assert(d.last() == 48 + n % 10);
        assert(n == (n / 10) * 10 + n % 10) by (nonlinear_arith);
        assert(decimal(d) == decimal(d.drop_last()) * 10 + (d.last() - 48));
    } else {
        assert(d.drop_last() =~= Seq::<u8>::empty());
        assert(d.last() == 48 + n);
        assert(decimal(Seq::<u8>::empty()) == 0);
        assert(decimal(d) == decimal(d.drop_last()) * 10 + (d.last() - 48));
    }
}

/// Two fields separated by one space read back as exactly those fields.
proof fn lemma_two_fields(a: Seq<u8>, b: Seq<u8>)
    requires
        a.len() > 0,
        b.len() > 0,
        forall|i: int| 0 <= i < a.len() ==> is_digit(#[trigger] a[i]),
        forall|i: int| 0 <= i < b.len() ==> is_digit(#[trigger] b[i]),
    ensures
        fields(a + seq![32u8] + b) == seq![a, b],
{
    let s = a + seq![32u8] + b;
    assert forall|k: int| 0 <= k < a.len() implies !is_blank(#[trigger] s[k]) by {
        assert(s[k] == a[k]);
    }
    lemma_word_len(s, a.len() as int);
    assert(s.take(a.len() as int) =~= a);
    let t = s.skip(a.len() as int);
    assert(t =~= seq![32u8] + b);
    assert(t.drop_first() =~= b);
    assert(fields(t) == fields(b));
    lemma_word_len(b, b.len() as int);
    assert(b.take(b.len() as int) =~= b);
    assert(b.skip(b.len() as int) =~= Seq::<u8>::empty());
    assert(is_digit(b[0]));
    assert(fields(Seq::<u8>::empty()) == Seq::<Seq<u8>>::empty());
    assert(fields(b) == seq![b] + fields(Seq::<u8>::empty()));
    assert(fields(b) =~= seq![b]);
    assert(fields(s) =~= seq![a] + fields(t));
    assert(fields(s) =~= seq![a, b]);
}

/// The decimal digits of `n`.
pub fn decimal_digits(n: u64) -> (r: Vec<u8>)
    ensures
        r@ == digits(n as nat),
{
    let mut rem = n;
    let mut acc: Vec<u8> = Vec::new();
    assert(digits(n as nat) =~= digits(rem as nat) + acc@);
    while rem >= 10
        invariant
            digits(n as nat) == digits(rem as nat) + acc@,
        decreases rem,
    {
        let d = (48 + rem % 10) as u8;
        assert(digits(rem as nat) + acc@ =~= digits((rem / 10) as nat) + acc@.insert(0, d));
        acc.insert(0, d);
        rem = rem / 10;
    }
    let d = (48 + rem) as u8;
    assert(digits(rem as nat) + acc@ =~= acc@.insert(0, d));
    acc.insert(0, d);
    acc
}

/// The saved record of a run: the seed and the branch count, in decimal,
/// separated by one space. It reads back as the same pair.
pub fn save_bytes(seed: u64, branches: u64) -> (r: Vec<u8>)
    ensures
        r@ == digits(seed as nat) + seq![32u8] + digits(branches as nat),
        save_record(r@) == Some((seed, branches)),
{
    let mut out = decimal_digits(seed);
    out.push(32);
    let mut tail = decimal_digits(branches);
    out.append(&mut tail);
    proof {
        lemma_digits(seed as nat);
        lemma_digits(branches as nat);
        lemma_two_fields(digits(seed as nat), digits(branches as nat));
        let fs = fields(out@);
        assert(out@ =~= digits(seed as nat) + seq![32u8] + digits(branches as nat));
        assert(fs[0] == digits(seed as nat));
        assert(fs[1] == digits(branches as nat));
    }
    out
}

} // verus!
