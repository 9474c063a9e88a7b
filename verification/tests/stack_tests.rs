use calc::float::Float;
use calc::integer::Integer;
use calc::stack::{float_as_int, zip, Error, Item, Stack};
use calc::units::catalog::{ampere, candela, meter};
use calc::units::{Number, Unit};

fn fl(x: f64) -> Float {
    Float::from_bits(x.to_bits())
}

fn val(x: Float) -> f64 {
    f64::from_bits(x.to_bits())
}

#[test]
fn height() {
    let mut s = Stack::new();
    assert_eq!(s.height(), 0);
    s.pushx(fl(2.5));
    assert_eq!(s.height(), 1);
    s.pushx(fl(6.2));
    assert_eq!(s.height(), 2);
    let _ = s.pop();
    assert_eq!(s.height(), 1);
    let _ = s.pop();
    assert_eq!(s.height(), 0);
}

#[test]
fn is_empty() {
    let mut s = Stack::new();
    assert!(s.is_empty());
    s.pushx(fl(2.5));
    assert!(!s.is_empty());
    s.pushx(fl(6.2));
    assert!(!s.is_empty());
    let _ = s.pop();
    assert!(!s.is_empty());
    let _ = s.pop();
    assert!(s.is_empty());
}

#[test]
fn clear() {
    let mut s = Stack::new();
    s.clear();
    assert_eq!(s.height(), 0);
    s.pushf(Number::new(fl(5.4)));
    s.pushu(ampere().as_unit());
    s.pushx(fl(1.2));
    s.pushi(Integer::hex(3));
    assert_eq!(s.height(), 4);
    s.clear();
    assert_eq!(s.height(), 0);
}

#[test]
fn transaction_rollback() {
    let mut s = Stack::new();

    let f = Number::new(fl(1.2));
    let i = Integer::dec(10);
    s.pushf(f.clone());
    s.pushi(i.clone());

    {
        let mut tx = s.begin();
        let _ = tx.pop();
        tx.pushx(fl(3.4));
        tx.pushu(candela().as_unit());
        assert_eq!(tx.height(), 3);
    }

    assert_eq!(s.height(), 2);
    match s.pop().unwrap() {
        Item::Integer(this_i) => assert_eq!(this_i, i),
        _ => panic!("expected Item::Integer"),
    }
    match s.pop().unwrap() {
        Item::Float(this_f) => {
            assert_eq!(this_f.value, f.value);
            assert_eq!(this_f.unit, f.unit);
        }
        _ => panic!("expected Item::Float"),
    }
}

#[test]
fn transaction_isolation() {
    let mut s = Stack::new();

    let f = Number::new(fl(1.2));
    let i = Integer::dec(10);
    s.pushf(f.clone());
    s.pushi(i.clone());

    let mut tx = s.begin();
    let _ = tx.pop();
    tx.pushx(fl(3.4));
    tx.pushu(candela().as_unit());
    assert_eq!(tx.height(), 3);

    assert_eq!(s.height(), 2);
    match s.pop().unwrap() {
        Item::Integer(this_i) => assert_eq!(this_i, i),
        _ => panic!("expected Item::Integer"),
    }
    match s.pop().unwrap() {
        Item::Float(this_f) => {
            assert_eq!(this_f.value, f.value);
            assert_eq!(this_f.unit, f.unit);
        }
        _ => panic!("expected Item::Float"),
    }
}

#[test]
fn transaction_commit() {
    let mut s = Stack::new();

    let f = Number::new(fl(1.2));
    let i = Integer::dec(10);
    let u = candela().as_unit();
    s.pushf(f.clone());
    s.pushi(i.clone());

    {
        let mut tx = s.begin();
        let _ = tx.pop();
        tx.pushx(fl(3.4));
        tx.pushu(u.clone());
        tx.commit();
    }

    assert_eq!(s.height(), 3);
    match s.pop().unwrap() {
        Item::Unit(this_u) => assert_eq!(this_u, u),
        _ => panic!("expected Item::Unit"),
    }
    match s.pop().unwrap() {
        Item::Float(this_f) => {
            assert_eq!(val(this_f.value), 3.4);
            assert_eq!(this_f.unit, None);
        }
        _ => panic!("expected Item::Float"),
    }
    match s.pop().unwrap() {
        Item::Float(this_f) => {
            assert_eq!(this_f.value, f.value);
            assert_eq!(this_f.unit, f.unit);
        }
        _ => panic!("expected Item::Float"),
    }
}

#[test]
fn transaction_pop_from_empty_stack() {
    let mut s = Stack::new();
    {
        let mut tx = s.begin();
        assert!(tx.pop().is_err());
    }
}

#[test]
fn transaction_pop_after_transaction_push() {
    let mut s = Stack::new();
    {
        let mut tx = s.begin();
        tx.pushx(fl(1.0));
        match tx.pop() {
            Ok(Item::Float(x)) => assert_eq!(val(x.value), 1.0),
            _ => panic!("expected Ok(Item::Float)"),
        }
        assert!(tx.pop().is_err());
    }
}

#[test]
fn transaction_pop_after_stack_push() {
    let mut s = Stack::new();
    s.pushx(fl(2.0));
    {
        let mut tx = s.begin();
        match tx.pop() {
            Ok(Item::Float(x)) => assert_eq!(val(x.value), 2.0),
            _ => panic!("expected Ok(Item::Float)"),
        }
        assert!(tx.pop().is_err());
    }
}

#[test]
fn transaction_pop_after_stack_push_and_transaction_push() {
    let mut s = Stack::new();
    s.pushx(fl(2.0));
    {
        let mut tx = s.begin();
        tx.pushx(fl(3.0));
        match tx.pop() {
            Ok(Item::Float(x)) => assert_eq!(val(x.value), 3.0),
            _ => panic!("expected Ok(Item::Float)"),
        }
        match tx.pop() {
            Ok(Item::Float(x)) => assert_eq!(val(x.value), 2.0),
            _ => panic!("expected Ok(Item::Float)"),
        }
        assert!(tx.pop().is_err());
    }
}

#[test]
fn transaction_pop2_from_empty_stack() {
    let mut s = Stack::new();
    {
        let mut tx = s.begin();
        assert!(tx.pop2().is_err());
    }
}

#[test]
fn transaction_pop2_after_transaction_push() {
    let mut s = Stack::new();
    {
        let mut tx = s.begin();
        tx.pushx(fl(1.0));
        assert!(tx.pop2().is_err());
        assert_eq!(tx.height(), 1);
    }
}

#[test]
fn transaction_pop2_after_stack_push() {
    let mut s = Stack::new();
    s.pushx(fl(2.0));
    {
        let mut tx = s.begin();
        assert!(tx.pop2().is_err());
        assert_eq!(tx.height(), 1);
    }
}

#[test]
fn transaction_pop2_after_two_stack_pushes() {
    let mut s = Stack::new();
    s.pushx(fl(2.0));
    s.pushx(fl(3.0));
    {
        let mut tx = s.begin();
        match tx.pop2() {
            Ok((Item::Float(a), Item::Float(b))) => {
                assert_eq!(val(a.value), 2.0);
                assert_eq!(val(b.value), 3.0);
            }
            _ => panic!("expected Ok((Item::Float, Item::Float))"),
        }
        assert!(tx.pop().is_err());
    }
}

#[test]
fn transaction_pop2_after_stack_push_and_transaction_push() {
    let mut s = Stack::new();
    s.pushx(fl(2.0));
    {
        let mut tx = s.begin();
        tx.pushx(fl(3.0));
        match tx.pop2() {
            Ok((Item::Float(a), Item::Float(b))) => {
                assert_eq!(val(a.value), 2.0);
                assert_eq!(val(b.value), 3.0);
            }
            _ => panic!("expected Ok((Item::Float, Item::Float))"),
        }
        assert!(tx.pop().is_err());
    }
}

#[test]
fn transaction_pop2_after_two_transaction_pushes() {
    let mut s = Stack::new();
    {
        let mut tx = s.begin();
        tx.pushx(fl(2.0));
        tx.pushx(fl(3.0));
        match tx.pop2() {
            Ok((Item::Float(a), Item::Float(b))) => {
                assert_eq!(val(a.value), 2.0);
                assert_eq!(val(b.value), 3.0);
            }
            _ => panic!("expected Ok((Item::Float, Item::Float))"),
        }
        assert!(tx.pop().is_err());
    }
}

#[test]
fn stack_pop_of_an_empty_stack_underflows() {
    let mut s = Stack::new();
    assert_eq!(s.pop().err(), Some(Error::Underflow));
    assert_eq!(s.popf().err(), Some(Error::Underflow));
    s.pushi(Integer::dec(1));
    assert_eq!(s.popf().err(), Some(Error::TypeMismatch));
}

#[test]
fn a_unit_without_bases_is_pushed_as_its_constant() {
    let scalar = Unit::new(&[meter()], &[meter()]).unwrap().with_constant(fl(0.001));
    let mut s = Stack::new();
    s.pushu(scalar.clone());
    match s.pop().unwrap() {
        Item::Float(n) => {
            assert_eq!(val(n.value), 0.001);
            assert!(n.is_dimensionless());
        }
        _ => panic!("expected Item::Float"),
    }
    let mut tx = s.begin();
    tx.pushu(scalar);
    tx.commit();
    assert!(matches!(s.pop(), Ok(Item::Float(_))));
}

#[test]
fn transaction_keep_keeps_the_topmost_items() {
    let mut s = Stack::new();
    for i in 0..5 {
        s.pushi(Integer::dec(i));
    }
    {
        let mut tx = s.begin();
        tx.pushi(Integer::dec(5));
        assert_eq!(tx.keep(7).err(), Some(Error::Underflow));
        assert_eq!(tx.height(), 6);
        assert!(tx.keep(3).is_ok());
        assert_eq!(tx.height(), 3);
        tx.commit();
    }
    assert_eq!(s.height(), 3);
    let got: Vec<i64> = (0..3)
        .map(|ix| match s.get(ix) {
            Some(Item::Integer(i)) => i.value,
            _ => panic!("expected Item::Integer"),
        })
        .collect();
    assert_eq!(got, vec![3, 4, 5]);
    assert!(s.get(3).is_none());
    {
        let mut tx = s.begin();
        tx.pushi(Integer::dec(6));
        tx.pushi(Integer::dec(7));
        assert!(tx.keep(1).is_ok());
        assert!(!tx.is_empty());
        tx.commit();
    }
    assert_eq!(s.height(), 1);
    assert!(matches!(s.pop(), Ok(Item::Integer(i)) if i.value == 7));
}

#[test]
fn typed_pops_coerce_or_refuse() {
    let mut s = Stack::new();
    s.pushi(Integer::hex(3));
    s.pushx(fl(4.0));
    s.pushx(fl(4.5));
    s.pushf(Number::new(fl(2.0)).with_unit(meter().as_unit()));
    s.pushu(meter().as_unit());
    let mut tx = s.begin();
    assert_eq!(tx.pop_as_i().err(), Some(Error::TypeMismatch));
    tx.pushu(meter().as_unit());
    assert_eq!(tx.pop_as_f().err(), Some(Error::TypeMismatch));
    tx.pushu(meter().as_unit());
    assert_eq!(tx.popn().err(), Some(Error::TypeMismatch));
    assert_eq!(tx.pop_as_i().err(), Some(Error::NotDimensionless));
    assert_eq!(tx.pop_as_i().err(), Some(Error::NotAnInteger));
    assert_eq!(tx.pop_as_ii().unwrap(), (Integer::hex(3), Integer::dec(4)));
    assert_eq!(tx.pop_as_i().err(), Some(Error::Underflow));
    assert_eq!(tx.pop_as_ii().err(), Some(Error::Underflow));
    assert_eq!(tx.pop_as_ff().err(), Some(Error::Underflow));
    assert_eq!(tx.pop_as_fu().err(), Some(Error::Underflow));
    assert_eq!(tx.popnn().err(), Some(Error::Underflow));
    assert_eq!(tx.popf().err(), Some(Error::Underflow));
    tx.pushi(Integer::dec(2));
    tx.pushx(fl(0.5));
    let (a, b) = tx.pop_as_ff().unwrap();
    assert_eq!((val(a.value), val(b.value)), (2.0, 0.5));
    tx.pushi(Integer::dec(2));
    tx.pushu(meter().as_unit());
    let (a, u) = tx.pop_as_fu().unwrap();
    assert_eq!(val(a.value), 2.0);
    assert_eq!(u, meter().as_unit());
    tx.pushx(fl(1.0));
    tx.pushi(Integer::dec(2));
    assert_eq!(tx.pop_as_fu().err(), Some(Error::TypeMismatch));
    tx.pushx(fl(1.5));
    tx.pushi(Integer::dec(2));
    assert_eq!(tx.pop_as_ii().err(), Some(Error::NotAnInteger));
    tx.pushx(fl(1.5));
    assert!(matches!(tx.popf(), Ok(n) if val(n.value) == 1.5));
    tx.pushi(Integer::dec(1));
    assert_eq!(tx.popf().err(), Some(Error::TypeMismatch));
    tx.pushi(Integer::dec(1));
    tx.pushx(fl(2.0));
    assert!(matches!(tx.popnn(), Ok((Item::Integer(_), Item::Float(_)))));
}

#[test]
fn float_as_int_wants_a_whole_number_without_unit() {
    assert_eq!(float_as_int(&Number::new(fl(3.0))), Ok(Integer::dec(3)));
    assert_eq!(float_as_int(&Number::new(fl(-3.0))), Ok(Integer::dec(-3)));
    assert_eq!(float_as_int(&Number::new(fl(1e30))), Ok(Integer::dec(i64::MAX)));
    assert_eq!(float_as_int(&Number::new(fl(3.5))), Err(Error::NotAnInteger));
    assert_eq!(float_as_int(&Number::new(fl(f64::NAN))), Err(Error::NotAnInteger));
    assert_eq!(float_as_int(&Number::new(fl(f64::INFINITY))), Err(Error::NotAnInteger));
    assert_eq!(
        float_as_int(&Number::new(fl(3.0)).with_unit(meter().as_unit())),
        Err(Error::NotDimensionless)
    );
    assert_eq!(
        float_as_int(&Number::new(fl(3.5)).with_unit(meter().as_unit())),
        Err(Error::NotAnInteger)
    );
}

#[test]
fn zip_gives_both_values_or_the_first_error() {
    assert_eq!(zip::<i32, i32>(Ok(1), Ok(2)), Ok((1, 2)));
    assert_eq!(zip::<i32, i32>(Err(Error::Underflow), Ok(2)), Err(Error::Underflow));
    assert_eq!(zip::<i32, i32>(Ok(1), Err(Error::TypeMismatch)), Err(Error::TypeMismatch));
    assert_eq!(
        zip::<i32, i32>(Err(Error::NotAnInteger), Err(Error::TypeMismatch)),
        Err(Error::NotAnInteger)
    );
}

#[test]
fn iteration_goes_from_the_bottom_up() {
    let mut s = Stack::new();
    s.pushi(Integer::dec(1));
    s.pushi(Integer::dec(2));
    let mut it = s.iter();
    assert!(matches!(it.next(), Some(Item::Integer(i)) if i.value == 1));
    assert!(matches!(it.next(), Some(Item::Integer(i)) if i.value == 2));
    assert!(it.next().is_none());
    assert!(Stack::default().is_empty());
}
