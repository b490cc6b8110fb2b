use mech_core::{make_quantity, Quantity, ToQuantity};

/// The quantity that a float stands for: the digits of its shortest decimal
/// form as the mantissa, and as many places below zero as follow the point.
fn quantity_of(x: f64) -> Quantity {
    let text = format!("{}", x);
    let negative = text.starts_with('-');
    let digits: String = text.chars().filter(|c| c.is_ascii_digit()).collect();
    let range = match text.find('.') {
        Some(point) => -((text.len() - point - 1) as i64),
        None => 0,
    };
    let mantissa: i64 = digits.parse().unwrap();
    make_quantity(if negative { -mantissa } else { mantissa }, range, 0)
}

/// The float nearest to a quantity.
fn to_float(q: Quantity) -> f64 {
    let mantissa = q.mantissa() as f64;
    let range = q.range();
    if range >= 0 {
        mantissa * 10f64.powi(range as i32)
    } else {
        mantissa / 10f64.powi((-range) as i32)
    }
}

#[test]
fn quantities_base() {
    let x = make_quantity(1, 3, 1);
    let y = make_quantity(1, -3, 1);
    let added = x.add(y);
    assert!(x.is_number());
    assert!(!x.is_other());
    assert_eq!(x.mantissa(), 1);
    assert_eq!(y.mantissa(), 1);
    assert_eq!(x.range(), 3);
    assert_eq!(y.range(), -3);
    assert_eq!(added.mantissa(), 1000001);
    assert_eq!(added.range(), -3);
    let added_reverse = y.add(x);
    assert_eq!(added_reverse.mantissa(), 1000001);
    assert_eq!(added_reverse.range(), -3);
}

#[test]
fn quantities_base_sub() {
    let x = make_quantity(1, 3, 1);
    let y = make_quantity(1, -3, 1);
    let sub = x.sub(y);
    assert_eq!(sub.mantissa(), 999999);
    assert_eq!(sub.range(), -3);
}

#[test]
fn quantities_base_multiply() {
    let x = make_quantity(1, 3, 1);
    let y = make_quantity(1, -3, 1);
    let sub = x.multiply(y);
    assert_eq!(sub.mantissa(), 1);
    assert_eq!(sub.range(), 0);
}

#[test]
fn quantities_base_divide() {
    let x = 1.to_quantity();
    let y = 2.to_quantity();
    assert_eq!(to_float(x.divide(y)), 0.5);
}

#[test]
fn quantities_base_add_float() {
    let x = quantity_of(0.1);
    let y = quantity_of(0.2);
    assert_eq!(to_float(x.add(y)), 0.3);
}

#[test]
fn quantities_base_add_different_range_float() {
    let x = quantity_of(0.2);
    let y = quantity_of(0.3);
    assert_eq!(to_float(x.add(y)), 0.5);
}

#[test]
fn quantities_base_add_01_02_03() {
    let x = quantity_of(0.1);
    let y = quantity_of(0.2);
    let z = quantity_of(0.3);
    assert_eq!(to_float(x.add(y.add(z))), 0.6);
}

#[test]
fn quantities_base_associativity() {
    let x = quantity_of(0.1);
    let y = quantity_of(0.2);
    let z = quantity_of(0.3);
    assert_eq!(to_float(z.add(x.add(y))), 0.6);
}

#[test]
fn quantities_base_add_subtract() {
    let x = quantity_of(0.1);
    let y = quantity_of(0.2);
    let z = quantity_of(0.3);
    assert_eq!(to_float((z.add(x.add(y))).sub(z).sub(y)), 0.1);
}

#[test]
fn quantities_base_float() {
    let x = 1.2;
    let y = 1.1;
    let z = 0.5;
    assert_eq!(to_float(quantity_of(x)), x);
    assert_eq!(to_float(quantity_of(y)), y);
    assert_eq!(to_float(quantity_of(z)), z);
    println!("{}", quantity_of(x).to_string());
    println!("{}", quantity_of(y).to_string());
    println!("{}", quantity_of(z).to_string());
}
