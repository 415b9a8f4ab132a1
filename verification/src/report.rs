//! The report of a scan: the open ports in ascending order, one line each,
//! after a blank line.

use vstd::prelude::*;
use vstd::relations::sorted_by;
use vstd::relations::total_ordering;
use vstd::seq_lib::lemma_sorted_unique;

verus! {

/// The order in which ports are reported.
pub open spec fn port_leq() -> spec_fn(u16, u16) -> bool {
    |a: u16, b: u16| a <= b
}

/// The ports of `ports` in ascending order.
pub open spec fn ascending(ports: Seq<u16>) -> Seq<u16> {
    ports.sort_by(port_leq())
}

/// The character of one decimal digit.
pub open spec fn digit_char(digit: int) -> char {
    if digit == 0 {
        '0'
    } else if digit == 1 {
        '1'
    } else if digit == 2 {
        '2'
    } else if digit == 3 {
        '3'
    } else if digit == 4 {
        '4'
    } else if digit == 5 {
        '5'
    } else if digit == 6 {
        '6'
    } else if digit == 7 {
        '7'
    } else if digit == 8 {
        '8'
    } else {
        '9'
    }
}

/// A number in decimal, without leading zeros.
pub open spec fn decimal(number: nat) -> Seq<char>
    decreases number,
{
    if number < 10 {
        seq![digit_char(number as int)]
    } else {
        decimal(number / 10).push(digit_char((number % 10) as int))
    }
}

/// The line that reports one open port, with its line feed.
pub open spec fn port_line(port: u16) -> Seq<char> {
    decimal(port as nat) + " is open\n"@
}

/// The lines that report `ports`, in the order given.
pub open spec fn port_lines(ports: Seq<u16>) -> Seq<char>
    decreases ports.len(),
{
    if ports.len() == 0 {
        Seq::<char>::empty()
    } else {
        port_lines(ports.drop_last()) + port_line(ports.last())
    }
}

/// The text that reports `ports` in the order given: a blank line, then one
/// line for each port.
pub open spec fn rendered(ports: Seq<u16>) -> Seq<char> {
    "\n"@ + port_lines(ports)
}

/// The order of ports by their numbers is a total order.
pub proof fn lemma_port_order_total()
    ensures
        total_ordering(port_leq()),
{
}

/// The report does not depend on the order in which the ports were found:
/// two collections that hold the same ports, each as often, are reported
/// alike.
pub proof fn lemma_report_ignores_order(first: Seq<u16>, second: Seq<u16>)
    requires
        first.to_multiset() == second.to_multiset(),
    ensures
        ascending(first) == ascending(second),
        rendered(ascending(first)) == rendered(ascending(second)),
{
    lemma_port_order_total();
    first.lemma_sort_by_ensures(port_leq());
    second.lemma_sort_by_ensures(port_leq());
    lemma_sorted_unique(ascending(first), ascending(second), port_leq());
}

/// The report of a scan that found nothing is a single blank line.
pub proof fn lemma_report_of_nothing()
    ensures
        rendered(ascending(Seq::<u16>::empty())) == seq!['\n'],
{
    lemma_port_order_total();
    let none = Seq::<u16>::empty();
    none.lemma_sort_by_ensures(port_leq());
    none.to_multiset_ensures();
    ascending(none).to_multiset_ensures();
    assert(ascending(none).len() == 0);
    reveal_strlit("\n");
    assert(rendered(ascending(none)) =~= seq!['\n']);
}

/// Sorts in place with `sort` of std's slices, which its documentation
/// describes as a sort by the elements' order: afterwards the vector holds
/// the elements it held before, each as often as before, in ascending order.
#[verifier::external_body]
fn sort_in_place(ports: &mut Vec<u16>)
    ensures
        final(ports)@.to_multiset() == old(ports)@.to_multiset(),
        sorted_by(final(ports)@, port_leq()),
{
    ports.sort();
}

/// The ports in ascending order; a port given several times stays as often.
pub fn sorted_ports(ports: Vec<u16>) -> (sorted: Vec<u16>)
    ensures
        sorted@ == ascending(ports@),
        sorted@.to_multiset() == ports@.to_multiset(),
        sorted_by(sorted@, port_leq()),
        sorted@.len() == ports@.len(),
{
    let mut sorted = ports;
    sort_in_place(&mut sorted);
    proof {
        lemma_port_order_total();
        ports@.lemma_sort_by_ensures(port_leq());
        lemma_sorted_unique(sorted@, ascending(ports@), port_leq());
        sorted@.to_multiset_ensures();
        ports@.to_multiset_ensures();
    }
    sorted
}

/// One decimal digit as text.
fn digit_text(digit: u16) -> (text: &'static str)
    requires
        digit < 10,
    ensures
        text@ == seq![digit_char(digit as int)],
{
    proof {
        reveal_strlit("0");
        reveal_strlit("1");
        reveal_strlit("2");
        reveal_strlit("3");
        reveal_strlit("4");
        reveal_strlit("5");
        reveal_strlit("6");
        reveal_strlit("7");
        reveal_strlit("8");
        reveal_strlit("9");
    }
    let text = if digit == 0 {
        "0"
    } else if digit == 1 {
        "1"
    } else if digit == 2 {
        "2"
    } else if digit == 3 {
        "3"
    } else if digit == 4 {
        "4"
    } else if digit == 5 {
        "5"
    } else if digit == 6 {
        "6"
    } else if digit == 7 {
        "7"
    } else if digit == 8 {
        "8"
    } else {
        "9"
    };
    assert(text@ =~= seq![digit_char(digit as int)]);
    text
}

/// A port number in decimal.
pub fn decimal_text(number: u16) -> (text: String)
    ensures
        text@ == decimal(number as nat),
    decreases number,
{
    if number < 10 {
        String::from_str(digit_text(number))
    } else {
        let mut text = decimal_text(number / 10);
        text.append(digit_text(number % 10));
        assert(text@ =~= decimal(number as nat));
        text
    }
}

/// The text that reports the ports of `ports` in the order given.
pub fn render(ports: &Vec<u16>) -> (text: String)
    ensures
        text@ == rendered(ports@),
{
    let mut text = String::from_str("\n");
    let mut at: usize = 0;
    proof {
        assert(ports@.take(0) =~= Seq::<u16>::empty());
        assert(text@ =~= rendered(ports@.take(0)));
    }
    while at < ports.len()
        invariant
            at <= ports@.len(),
            text@ == rendered(ports@.take(at as int)),
        decreases ports@.len() - at,
    {
        let number = decimal_text(ports[at]);
        proof {
            let before = ports@.take(at as int);
            let after = ports@.take(at as int + 1);
            assert(after.drop_last() =~= before);
            assert(after.last() == ports@[at as int]);
            assert(rendered(after) =~= rendered(before) + decimal(ports@[at as int] as nat) + " is open\n"@);
        }
        text.append(number.as_str());
        text.append(" is open\n");
        at = at + 1;
    }
    proof {
        assert(ports@.take(at as int) =~= ports@);
    }
    text
}

/// The report of a scan that found `ports` open, in whatever order they were
/// found: a blank line, then `<port> is open` for each port, ascending.
pub fn report(ports: Vec<u16>) -> (text: String)
    ensures
        text@ == rendered(ascending(ports@)),
{
    let sorted = sorted_ports(ports);
    render(&sorted)
}

} // verus!
