use lportfolio::db::addr_to_db;
use lportfolio::portfolio_view::{add_thousands_separators, CellAgg};
use lportfolio::primitives::{Address, AddressParseError, U256};

#[test]
fn stored_address_text_parses_back() {
    let a: Address = "0xD8dA6BF26964aF9D7eEd9e03E53415D37aA96045".parse().unwrap();
    let text = addr_to_db(a);
    assert_eq!(text, "0xd8da6bf26964af9d7eed9e03e53415d37aa96045");
    assert_eq!(text.parse::<Address>(), Ok(a));
    assert_eq!("0X00000000000000000000000000000000000000FF".parse::<Address>().unwrap().lo, 255);
    assert_eq!("00000000000000000000000000000000000000ff".parse::<Address>().unwrap().lo, 255);
    assert_eq!("0x00ff".parse::<Address>(), Err(AddressParseError));
}

#[test]
fn merging_into_an_empty_cell_copies_amounts() {
    let mut src = CellAgg::new();
    src.add_token("USDT", U256::from_u64(7), 6);
    src.add_token("ARB", U256::from_u64(3), 18);
    src.add_token("USDT", U256::from_u64(1), 6);
    let mut total = CellAgg::new();
    total.merge(&src);
    assert_eq!(total.tokens, src.tokens);
    total.merge(&src);
    let usdt = total.tokens.iter().find(|t| t.0 == "USDT").unwrap();
    assert_eq!(usdt.1, U256::from_u64(16));
}

#[test]
fn amounts_wrap_at_two_to_the_256() {
    let max = U256 { w0: u64::MAX, w1: u64::MAX, w2: u64::MAX, w3: u64::MAX };
    let mut c = CellAgg::new();
    c.add_native(max);
    c.add_native(U256::from_u64(2));
    assert_eq!(c.native_wei, U256::from_u64(1));
}

#[test]
fn separators_group_digits_by_three() {
    assert_eq!(add_thousands_separators("12345678"), "12,345,678");
    assert_eq!(add_thousands_separators("123456"), "123,456");
    assert_eq!(add_thousands_separators("1234"), "1,234");
    assert_eq!(add_thousands_separators("123"), "123");
}
