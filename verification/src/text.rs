use vstd::prelude::*;

verus! {

/// `String::push` of the standard library appends one character to the end
/// of the string. This is taken from its documentation, and not proved.
pub assume_specification[ String::push ](s: &mut String, c: char)
    ensures
        final(s)@ == old(s)@.push(c),
;

/// `==` on string slices, `<str as PartialEq>::eq` of the standard library,
/// holds where the two texts have the same characters. This is taken from
/// its documentation, and not proved.
pub assume_specification[ <str as PartialEq>::eq ](a: &str, b: &str) -> (r: bool)
    ensures
        r == (a@ == b@),
;

/// Whether two texts are the same.
pub fn str_eq(a: &str, b: &str) -> (r: bool)
    ensures
        r == (a@ == b@),
{
    a.eq(b)
}

/// The characters of `s`, in order.
pub fn chars_of(s: &str) -> (out: Vec<char>)
    ensures
        out@ == s@,
{
    let mut out: Vec<char> = Vec::new();
    for c in it: s.chars()
        invariant
            out@ == it.seq().take(it.index()),
    {
        out.push(c);
    }
    out
}

/// The text made of `chars[from..to]`.
pub fn string_of(chars: &Vec<char>, from: usize, to: usize) -> (out: String)
    requires
        from <= to <= chars.len(),
    ensures
        out@ == chars@.subrange(from as int, to as int),
{
    let mut out = String::new();
    let mut i: usize = from;
    while i < to
        invariant
            from <= i <= to <= chars.len(),
            out@ == chars@.subrange(from as int, i as int),
        decreases to - i,
    {
        out.push(chars[i]);
        i += 1;
    }
    out
}

/// The decimal digit `d`, for `d` below ten.
pub open spec fn digit_char(d: nat) -> char {
    (48 + d) as char
}

/// `n` written in decimal, without leading zeros.
pub open spec fn decimal(n: nat) -> Seq<char>
    decreases n,
{
    if n < 10 {
        seq![digit_char(n)]
    } else {
        decimal(n / 10).push(digit_char(n % 10))
    }
}

/// Writes `n` in decimal.
pub fn decimal_string(n: usize) -> (out: String)
    ensures
        out@ == decimal(n as nat),
{
    let mut digits: Vec<char> = Vec::new();
    let mut m: usize = n;
    let ghost mut tail: Seq<char> = Seq::empty();
    while m >= 10
        invariant
            decimal(n as nat) == decimal(m as nat) + tail,
            digits.len() == tail.len(),
            forall|k: int| 0 <= k < tail.len() ==> digits[k] == tail[tail.len() - 1 - k],
        decreases m,
    {
        let c = (48u8 + (m % 10) as u8) as char;
        proof {
            let p = (m / 10) as nat;
            assert(decimal(m as nat) == decimal(p).push(c));
            assert(decimal(p).push(c) + tail =~= decimal(p) + (seq![c] + tail));
            tail = seq![c] + tail;
        }
        digits.push(c);
        m = m / 10;
    }
    let mut out = String::new();
    out.push((48u8 + m as u8) as char);
    let mut k: usize = digits.len();
    while k > 0
        invariant
            k <= digits.len(),
            digits.len() == tail.len(),
            forall|k: int| 0 <= k < tail.len() ==> digits[k] == tail[tail.len() - 1 - k],
            out@ == decimal(m as nat) + tail.take(tail.len() - k),
            m < 10,
        decreases k,
    {
        k -= 1;
        out.push(digits[k]);
        proof {
            let t = tail.len() - k;
            assert(tail.take(t) =~= tail.take(t - 1).push(tail[t - 1]));
            assert(decimal(m as nat) + tail.take(t) =~= (decimal(m as nat) + tail.take(t - 1)).push(
                tail[t - 1],
            ));
        }
    }
    assert(tail.take(tail.len() as int) =~= tail);
    out
}

} // verus!
