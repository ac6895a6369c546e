//! Names of the buffer pools that receive queues own.
//!
//! A pool name must be unique in the whole process. The name of a receive
//! queue's pool is built from the port and the queue index, written in
//! decimal, so that two different queues never share one.

use vstd::prelude::*;

verus! {

/// The character of one decimal digit.
pub open spec fn digit(d: nat) -> char {
    if d == 0 {
        '0'
    } else if d == 1 {
        '1'
    } else if d == 2 {
        '2'
    } else if d == 3 {
        '3'
    } else if d == 4 {
        '4'
    } else if d == 5 {
        '5'
    } else if d == 6 {
        '6'
    } else if d == 7 {
        '7'
    } else if d == 8 {
        '8'
    } else {
        '9'
    }
}

/// The number of one decimal digit character; 10 for any other character.
pub open spec fn digit_value(c: char) -> nat {
    if c == '0' {
        0
    } else if c == '1' {
        1
    } else if c == '2' {
        2
    } else if c == '3' {
        3
    } else if c == '4' {
        4
    } else if c == '5' {
        5
    } else if c == '6' {
        6
    } else if c == '7' {
        7
    } else if c == '8' {
        8
    } else if c == '9' {
        9
    } else {
        10
    }
}

/// `n` written in decimal, without leading zeros.
pub open spec fn decimal(n: nat) -> Seq<char>
    decreases n,
{
    if n < 10 {
        seq![digit(n)]
    } else {
        decimal(n / 10).push(digit(n % 10))
    }
}

/// The number that a string of decimal digits writes.
pub open spec fn decimal_value(s: Seq<char>) -> nat
    decreases s.len(),
{
    if s.len() == 0 {
        0
    } else {
        decimal_value(s.drop_last()) * 10 + digit_value(s.last())
    }
}

/// The name of the pool of receive queue `queue` on port `port_id`.
pub open spec fn rx_pool_name(port_id: nat, queue: nat) -> Seq<char> {
    "rxq_be0dd4ab_"@ + decimal(port_id) + seq!['_'] + decimal(queue)
}

/// A number written in decimal is one digit or more, digits only, and reads
/// back as itself.
pub proof fn lemma_decimal(n: nat)
    ensures
        decimal(n).len() > 0,
        forall|i: int| 0 <= i < decimal(n).len() ==> digit_value(#[trigger] decimal(n)[i]) < 10,
        decimal_value(decimal(n)) == n,
    decreases n,
{
    if n < 10 {
        assert(decimal(n).drop_last() =~= Seq::<char>::empty());
        assert(decimal_value(decimal(n).drop_last()) == 0);
    } else {
        lemma_decimal(n / 10);
        assert(decimal(n).drop_last() =~= decimal(n / 10));
    }
}

/// Two numbers with the same decimal writing are the same number.
pub proof fn lemma_decimal_injective(a: nat, b: nat)
    requires
        decimal(a) == decimal(b),
    ensures
        a == b,
{
    lemma_decimal(a);
    lemma_decimal(b);
}

/// Two receive queues share a pool name only if they are the same queue of
/// the same port.
pub proof fn lemma_rx_pool_name_injective(port_a: nat, queue_a: nat, port_b: nat, queue_b: nat)
    requires
        rx_pool_name(port_a, queue_a) == rx_pool_name(port_b, queue_b),
    ensures
        port_a == port_b,
        queue_a == queue_b,
{
    let prefix = "rxq_be0dd4ab_"@;
    let name_a = rx_pool_name(port_a, queue_a);
    let name_b = rx_pool_name(port_b, queue_b);
    let digits_a = decimal(port_a);
    let digits_b = decimal(port_b);
    let index_a = decimal(queue_a);
    let index_b = decimal(queue_b);
    lemma_decimal(port_a);
    lemma_decimal(port_b);
    lemma_decimal(queue_a);
    lemma_decimal(queue_b);
    let base = prefix.len() as int;
    assert(name_a.len() == name_b.len());
    // The separator stands where the port number ends.
    assert(name_a[base + digits_a.len()] == '_');
    assert(name_b[base + digits_b.len()] == '_');
    if digits_a.len() < digits_b.len() {
        assert(name_b[base + digits_a.len()] == digits_b[digits_a.len() as int]);
        assert(digit_value(digits_b[digits_a.len() as int]) < 10);
        assert(false);
    }
    if digits_b.len() < digits_a.len() {
        assert(name_a[base + digits_b.len()] == digits_a[digits_b.len() as int]);
        assert(digit_value(digits_a[digits_b.len() as int]) < 10);
        assert(false);
    }
    assert(digits_a =~= digits_b) by {
        assert forall|i: int| 0 <= i < digits_a.len() implies digits_a[i] == digits_b[i] by {
            assert(name_a[base + i] == digits_a[i]);
            assert(name_b[base + i] == digits_b[i]);
        }
    }
    assert(index_a =~= index_b) by {
        assert(index_a.len() == index_b.len());
        assert forall|i: int| 0 <= i < index_a.len() implies index_a[i] == index_b[i] by {
            assert(name_a[base + digits_a.len() + 1 + i] == index_a[i]);
            assert(name_b[base + digits_b.len() + 1 + i] == index_b[i]);
        }
    }
    lemma_decimal_injective(port_a, port_b);
    lemma_decimal_injective(queue_a, queue_b);
}

/// The text of one decimal digit.
fn digit_text(d: usize) -> (t: &'static str)
    requires
        d < 10,
    ensures
        t@ == seq![digit(d as nat)],
{
    proof {
        reveal_strlit("0");
        reveal_strlit("1");
        reveal_strlit("2");
        reveal_strlit("3");
        reveal_strlit("4");
        reveal_strlit("5");
        reveal_strlit("6");
        reveal_strlit("7");
        reveal_strlit("8");
        reveal_strlit("9");
    }
    let t = if d == 0 {
        "0"
    } else if d == 1 {
        "1"
    } else if d == 2 {
        "2"
    } else if d == 3 {
        "3"
    } else if d == 4 {
        "4"
    } else if d == 5 {
        "5"
    } else if d == 6 {
        "6"
    } else if d == 7 {
        "7"
    } else if d == 8 {
        "8"
    } else {
        "9"
    };
    assert(t@ =~= seq![digit(d as nat)]);
    t
}

/// Appends `n`, written in decimal, to `text`.
pub fn push_decimal(text: &mut String, n: usize)
    ensures
        final(text)@ == old(text)@ + decimal(n as nat),
    decreases n,
{
    if n >= 10 {
        push_decimal(text, n / 10);
    }
    text.append(digit_text(n % 10));
    proof {
        assert(final(text)@ =~= old(text)@ + decimal(n as nat));
    }
}

/// The name of the pool of receive queue `queue` on port `port_id`.
pub fn rx_pool_name_of(port_id: u16, queue: usize) -> (name: String)
    ensures
        name@ == rx_pool_name(port_id as nat, queue as nat),
{
    let mut name = String::from_str("rxq_be0dd4ab_");
    push_decimal(&mut name, port_id as usize);
    proof {
        reveal_strlit("_");
    }
    name.append("_");
    push_decimal(&mut name, queue);
    proof {
        assert("_"@ =~= seq!['_']);
    }
    name
}

} // verus!
