use vstd::prelude::*;
use vstd::std_specs::iter::IteratorSpec;

verus! {

broadcast use vstd::string::group_string_axioms, vstd::string::axiom_spec_iter, vstd::string::next_postcondition;

/// The characters of `s`, in order.
pub fn chars_of(s: &str) -> (r: Vec<char>)
    ensures
        r@ == s@,
{
    let mut it = s.chars();
    let mut v: Vec<char> = Vec::new();
    loop
        invariant
            it.obeys_prophetic_iter_laws(),
            v@.len() <= s@.len(),
            it.remaining() == s@.skip(v@.len() as int),
            v@ == s@.take(v@.len() as int),
        ensures
            v@ == s@,
        decreases s@.len() - v@.len(),
    {
        match it.next() {
            Some(c) => {
                v.push(c);
            },
            None => {
                assert(s@.skip(v@.len() as int).len() == 0);
                assert(v@ =~= s@);
                break;
            },
        }
    }
    v
}

} // verus!

verus! {

/// Position of the last ':' in `s`, or -1 when there is none.
pub open spec fn last_colon(s: Seq<char>) -> int
    decreases s.len(),
{
    if s.len() == 0 {
        -1
    } else if s.last() == ':' {
        s.len() - 1
    } else {
        last_colon(s.drop_last())
    }
}

pub open spec fn is_digit(c: char) -> bool {
    '0' <= c <= '9'
}

/// The number that the decimal digits `d` write.
pub open spec fn digits_value(d: Seq<char>) -> nat
    decreases d.len(),
{
    if d.len() == 0 {
        0
    } else {
        digits_value(d.drop_last()) * 10 + ((d.last() as u32 - '0' as u32) as nat)
    }
}

/// The port of a `host:port` address: one to five decimal digits after the
/// last ':', at most 65535.
pub open spec fn address_port(s: Seq<char>) -> Option<u16> {
    let k = last_colon(s);
    let d = s.skip(k + 1);
    if k >= 0 && 1 <= d.len() <= 5 && (forall|i: int| 0 <= i < d.len() ==> is_digit(#[trigger] d[i]))
        && digits_value(d) <= 65535 {
        Some(digits_value(d) as u16)
    } else {
        None
    }
}

fn find_last_colon(v: &Vec<char>) -> (r: Option<usize>)
    ensures
        r matches Some(k) ==> k == last_colon(v@) && k < v@.len(),
        r is None ==> last_colon(v@) == -1,
{
    let mut i: usize = v.len();
    assert(v@.take(i as int) =~= v@);
    while i > 0
        invariant
            i <= v@.len(),
            last_colon(v@) == last_colon(v@.take(i as int)),
        decreases i,
    {
        if v[i - 1] == ':' {
            return Some(i - 1);
        }
        assert(v@.take(i as int).drop_last() =~= v@.take(i - 1));
        i = i - 1;
    }
    None
}

/// The port of a tunnel address written `host:port`, when it has one.
pub fn get_tunnel_address_port(addr: &String) -> (r: Option<u16>)
    ensures
        r == address_port(addr@),
{
    let v = chars_of(addr.as_str());
    let k = match find_last_colon(&v) {
        Some(k) => k,
        None => {
            return None;
        },
    };
    let ghost d = v@.skip(k + 1);
    let n: usize = v.len() - k - 1;
    if n < 1 || n > 5 {
        return None;
    }
    let mut acc: u32 = 0;
    let mut j: usize = 0;
    while j < n
        invariant
            n == d.len(),
            1 <= n <= 5,
            v@ == addr@,
            k == last_colon(addr@),
            k + 1 + n == v@.len(),
            d == v@.skip(k + 1),
            j <= n,
            acc == digits_value(d.take(j as int)),
            acc < 100000,
            acc < pow10(j as nat),
            forall|i: int| 0 <= i < j ==> is_digit(#[trigger] d[i]),
        decreases n - j,
    {
        let c = v[k + 1 + j];
        assert(c == d[j as int]);
        if !('0' <= c && c <= '9') {
            assert(!is_digit(d[j as int]));
            return None;
        }
        assert(d.take(j + 1).drop_last() =~= d.take(j as int));
        proof {
            lemma_pow10_small(j as nat);
        }
        acc = acc * 10 + (c as u32 - '0' as u32);
        j = j + 1;
    }
    assert(d.take(n as int) =~= d);
    if acc > 65535 {
        None
    } else {
        Some(acc as u16)
    }
}

pub open spec fn pow10(n: nat) -> nat
    decreases n,
{
    if n == 0 {
        1
    } else {
        10 * pow10((n - 1) as nat)
    }
}

proof fn lemma_pow10_small(n: nat)
    requires
        n < 5,
    ensures
        pow10(n) <= 10000,
{
    reveal_with_fuel(pow10, 5);
}

} // verus!

verus! {

/// The decimal digit character of `d`.
pub open spec fn digit_char(d: nat) -> char {
    if d == 0 { '0' } else if d == 1 { '1' } else if d == 2 { '2' } else if d == 3 { '3' }
    else if d == 4 { '4' } else if d == 5 { '5' } else if d == 6 { '6' } else if d == 7 { '7' }
    else if d == 8 { '8' } else { '9' }
}

/// `n` written in decimal, without leading zeros.
pub open spec fn decimal(n: nat) -> Seq<char>
    decreases n,
{
    if n < 10 {
        seq![digit_char(n)]
    } else {
        decimal(n / 10).push(digit_char(n % 10))
    }
}

fn digit_str(d: u64) -> (r: &'static str)
    requires
        d < 10,
    ensures
        r@ == seq![digit_char(d as nat)],
{
    proof {
        reveal_strlit("0");
        reveal_strlit("1");
        reveal_strlit("2");
        reveal_strlit("3");
        reveal_strlit("4");
        reveal_strlit("5");
        reveal_strlit("6");
        reveal_strlit("7");
        reveal_strlit("8");
        reveal_strlit("9");
    }
    let r = if d == 0 { "0" } else if d == 1 { "1" } else if d == 2 { "2" } else if d == 3 { "3" }
    else if d == 4 { "4" } else if d == 5 { "5" } else if d == 6 { "6" } else if d == 7 { "7" }
    else if d == 8 { "8" } else { "9" };
    assert(r@ =~= seq![digit_char(d as nat)]);
    r
}

/// Appends `n` in decimal to `s`.
pub fn push_decimal(s: &mut String, n: u64)
    ensures
        final(s)@ == old(s)@ + decimal(n as nat),
    decreases n,
{
    if n >= 10 {
        push_decimal(s, n / 10);
    }
    s.append(digit_str(n % 10));
    proof {
        if n >= 10 {
            assert(decimal(n as nat) == decimal((n / 10) as nat).push(digit_char((n % 10) as nat)));
        }
        assert(s@ =~= old(s)@ + decimal(n as nat));
    }
}

} // verus!
