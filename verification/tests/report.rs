use portscan::report::decimal_text;
use portscan::report::render;
use portscan::report::report;
use portscan::report::sorted_ports;

#[test]
fn report_sorts_and_renders_each_port() {
    assert_eq!(report(vec![443, 22, 80]), "\n22 is open\n80 is open\n443 is open\n");
}

#[test]
fn report_of_nothing_is_a_blank_line() {
    assert_eq!(report(Vec::new()), "\n");
    assert_eq!(report(Vec::new()).lines().filter(|line| line.ends_with("is open")).count(), 0);
}

#[test]
fn report_ignores_the_order_of_discovery() {
    let one = report(vec![65000, 1025, 2048]);
    let other = report(vec![2048, 65000, 1025]);
    assert_eq!(one, other);
    assert_eq!(one, "\n1025 is open\n2048 is open\n65000 is open\n");
}

#[test]
fn report_keeps_a_port_given_twice() {
    assert_eq!(report(vec![80, 22, 80]), "\n22 is open\n80 is open\n80 is open\n");
}

#[test]
fn report_handles_the_boundary_ports() {
    assert_eq!(report(vec![65535, 1]), "\n1 is open\n65535 is open\n");
}

#[test]
fn sorted_ports_are_ascending() {
    assert_eq!(sorted_ports(vec![5, 3, 9, 1, 3]), vec![1, 3, 3, 5, 9]);
    assert_eq!(sorted_ports(vec![2, 1]), vec![1, 2]);
    assert_eq!(sorted_ports(Vec::new()), Vec::<u16>::new());
}

#[test]
fn render_keeps_the_given_order() {
    assert_eq!(render(&vec![9, 3]), "\n9 is open\n3 is open\n");
    assert_eq!(render(&Vec::new()), "\n");
}

#[test]
fn decimal_text_has_no_leading_zeros() {
    assert_eq!(decimal_text(0), "0");
    assert_eq!(decimal_text(7), "7");
    assert_eq!(decimal_text(10), "10");
    assert_eq!(decimal_text(109), "109");
    assert_eq!(decimal_text(1025), "1025");
    assert_eq!(decimal_text(65535), "65535");
    for number in [1u16, 99, 100, 999, 1000, 9999, 10000, 12345, 60000] {
        assert_eq!(decimal_text(number), format!("{}", number));
    }
}
