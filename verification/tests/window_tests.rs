use fee_miner::field::FieldElement;
use fee_miner::hex::ParseError;
use fee_miner::window::{
    derive_window, window_from_oracle, window_from_read, AcceptanceWindow, OracleError,
};

type Felt = starknet::core::types::FieldElement;

fn outside(f: &FieldElement) -> Felt {
    Felt::from_bytes_be(&f.to_bytes_be()).unwrap()
}

fn inside(f: &Felt) -> FieldElement {
    FieldElement::from_bytes_be(f.to_bytes_be()).unwrap()
}

fn reference_bounds(prefix_hex: &str) -> Option<(Felt, Felt)> {
    let min_hex = format!("{:0<1$}", prefix_hex, 62);
    let max_hex = format!("{:1$}", prefix_hex, 62).replace(" ", "f");
    let max = Felt::from_hex_be(&max_hex).ok()?;
    let min = Felt::from_hex_be(&min_hex).ok()?;
    Some((min, max))
}

#[test]
fn derive_window_pads_the_prefix_to_full_width() {
    let w = derive_window("00aa").unwrap();
    let min = format!("00aa{}", "0".repeat(58));
    let max = format!("00aa{}", "f".repeat(58));
    assert_eq!(w.min(), FieldElement::from_hex(&min).unwrap());
    assert_eq!(w.max(), FieldElement::from_hex(&max).unwrap());
    assert_eq!(min.len(), 62);
    assert_eq!(max.len(), 62);
}

#[test]
fn derive_window_of_one_digit() {
    let w = derive_window("1").unwrap();
    assert_eq!(w.min().to_hex(), format!("1{}", "0".repeat(61)));
    assert_eq!(w.max().to_hex(), format!("1{}", "f".repeat(61)));
    assert!(w.min().le(&w.max()));
}

#[test]
fn derive_window_of_the_empty_prefix_is_the_whole_width() {
    let w = derive_window("").unwrap();
    assert_eq!(w.min(), FieldElement::zero());
    assert_eq!(w.max().to_hex(), "f".repeat(62));
}

#[test]
fn derive_window_leaves_a_full_width_prefix_alone() {
    let prefix = "3".repeat(62);
    let w = derive_window(&prefix).unwrap();
    assert_eq!(w.min(), w.max());
    assert_eq!(w.min().to_hex(), prefix);
    let longer = "7".repeat(63);
    let w = derive_window(&longer).unwrap();
    assert_eq!(w.min(), w.max());
    assert_eq!(w.min().to_hex(), longer);
}

#[test]
fn derive_window_reports_a_malformed_prefix() {
    assert_eq!(
        derive_window("12xz"),
        Err(OracleError::MalformedPrefix(ParseError::InvalidCharacter))
    );
    assert_eq!(
        derive_window(&"f".repeat(64)),
        Err(OracleError::MalformedPrefix(ParseError::OutOfRange))
    );
    assert_eq!(
        derive_window(&"0".repeat(65)),
        Err(OracleError::MalformedPrefix(ParseError::OutOfRange))
    );
}

#[test]
fn derive_window_agrees_with_padding_by_format() {
    let sixty_two = "9".repeat(62);
    let sixty_three = "1".repeat(63);
    let sixty_four = "0".repeat(64);
    let cases = [
        "",
        "0",
        "1",
        "00aa",
        "aa",
        "AB",
        "0x",
        "0x1",
        "0x0x",
        "deadbeef",
        "zz",
        "é",
        "1é",
        "ééééééééééééééééééééééééééééééé",
        "éééééééééééééééééééééééééééééééééééééééé",
        sixty_two.as_str(),
        sixty_three.as_str(),
        sixty_four.as_str(),
    ];
    for prefix in cases.iter() {
        let ours = derive_window(prefix).ok().map(|w| (outside(&w.min()), outside(&w.max())));
        assert_eq!(ours, reference_bounds(prefix), "prefix {:?}", prefix);
    }
}

#[test]
fn window_from_oracle_fails_on_an_empty_response() {
    let nothing: Vec<FieldElement> = Vec::new();
    assert_eq!(window_from_oracle(&nothing), Err(OracleError::EmptyResponse));
}

#[test]
fn window_from_oracle_takes_the_first_element_as_prefix() {
    let response = vec![FieldElement::from_u64(0xaa), FieldElement::from_u64(7)];
    let w = window_from_oracle(&response).unwrap();
    assert_eq!(w.min().to_hex(), format!("aa{}", "0".repeat(60)));
    assert_eq!(w.max().to_hex(), format!("aa{}", "f".repeat(60)));
}

#[test]
fn window_from_oracle_of_zero_is_not_a_single_point() {
    let w = window_from_oracle(&[FieldElement::zero()]).unwrap();
    assert_eq!(w.min(), FieldElement::zero());
    assert_eq!(w.max().to_hex(), "f".repeat(61));
}

#[test]
fn window_from_oracle_agrees_with_padding_by_format() {
    let samples = [
        Felt::ZERO,
        Felt::ONE,
        Felt::from(0xaau8),
        Felt::from(u64::MAX),
        Felt::from_hex_be(&"1".repeat(62)).unwrap(),
        Felt::from_hex_be(&"1".repeat(63)).unwrap(),
        Felt::MAX,
    ];
    for s in samples.iter() {
        let w = window_from_oracle(&[inside(s)]).unwrap();
        let expected = reference_bounds(&format!("{:x}", s)).unwrap();
        assert_eq!((outside(&w.min()), outside(&w.max())), expected);
    }
}

#[test]
fn new_window_needs_ordered_bounds() {
    let low = FieldElement::from_u64(10);
    let high = FieldElement::from_u64(20);
    assert!(AcceptanceWindow::new(low, high).is_some());
    assert!(AcceptanceWindow::new(low, low).is_some());
    assert_eq!(AcceptanceWindow::new(high, low), None);
}

#[test]
fn contains_is_inclusive_at_both_ends() {
    let w = AcceptanceWindow::new(FieldElement::from_u64(10), FieldElement::from_u64(20)).unwrap();
    assert!(!w.contains(&FieldElement::from_u64(9)));
    assert!(w.contains(&FieldElement::from_u64(10)));
    assert!(w.contains(&FieldElement::from_u64(15)));
    assert!(w.contains(&FieldElement::from_u64(20)));
    assert!(!w.contains(&FieldElement::from_u64(21)));
}

#[test]
fn window_from_read_tells_a_failed_read_from_an_empty_one() {
    assert_eq!(window_from_read(None), Err(OracleError::ReadFailed));
    assert_eq!(window_from_read(Some(&[])), Err(OracleError::EmptyResponse));
    let response = [FieldElement::from_u64(0xaa)];
    assert_eq!(window_from_read(Some(&response)), window_from_oracle(&response));
    assert!(window_from_read(Some(&response)).is_ok());
}
