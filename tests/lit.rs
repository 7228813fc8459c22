use cdcl::lbool::LBool;
use cdcl::lit::Lit;
use cdcl::var::Var;

#[test]
fn test_lit_new() {
    let var = Var::from(1);
    let sign = true;
    let lit = Lit::new(var, sign);
    assert_eq!(lit.value, 3);
}

#[test]
fn test_lit_sign() {
    let lit = Lit::from(3);
    assert!(lit.sign());

    let lit = Lit::from(2);
    assert!(!lit.sign());
}

#[test]
fn test_lit_var() {
    let lit = Lit::from(3);
    assert!(lit.var() == 1);

    let lit = Lit::from(2);
    assert!(lit.var() == 1);
}

#[test]
fn test_lit_default() {
    let lit = Lit::default();
    assert_eq!(lit.value, 0);
}

#[test]
fn test_lit_partial_eq() {
    let lit1 = Lit::from(2);
    let lit2 = Lit::from(3);
    let lit3 = Lit::from(3);
    assert!(lit1 != lit2);
    assert!(lit2 == lit3);
}

#[test]
fn test_lit_partial_ord() {
    let lit1 = Lit::from(2);
    let lit2 = Lit::from(3);
    assert!(lit1 < lit2);
    assert!(lit2 > lit1);
}

#[test]
fn test_lit_not() {
    let lit = Lit::new(Var::from(1), false);
    let lit2 = !lit;
    assert_eq!(lit2.value, 3);
}

#[test]
fn lit_round_trip_over_many_vars() {
    for v in [0i32, 1, 2, 7, 1000, 0x3FFF_FFFF] {
        for s in [false, true] {
            let l = Lit::new(Var::new(v), s);
            assert_eq!(l.sign(), s);
            assert!(l.var() == v);
            assert_eq!((!!l).value, l.value);
        }
    }
    let d = Lit::default();
    assert!(!d.sign());
    assert!(d.var() == 0);
}

#[test]
fn lit_order_follows_packed_value() {
    let a = Lit::new(Var::new(4), true);
    let b = Lit::new(Var::new(4), true);
    let c = Lit::new(Var::new(5), false);
    assert!(a == b);
    assert!(a != c);
    assert!(a < c);
    assert_eq!(a.partial_cmp(&c), Some(std::cmp::Ordering::Less));
    assert_eq!(c.partial_cmp(&a), Some(std::cmp::Ordering::Greater));
    assert_eq!(a.partial_cmp(&b), Some(std::cmp::Ordering::Equal));
    assert!(Lit::from(-5) < Lit::from(-4));
}

#[test]
fn lit_value_under_assignment() {
    let values = vec![LBool::True, LBool::False, LBool::Undefined];
    assert_eq!(Lit::new(Var::new(0), false).value(&values), LBool::True);
    assert_eq!(Lit::new(Var::new(0), true).value(&values), LBool::False);
    assert_eq!(Lit::new(Var::new(1), false).value(&values), LBool::False);
    assert_eq!(Lit::new(Var::new(1), true).value(&values), LBool::True);
    assert_eq!(Lit::new(Var::new(2), false).value(&values), LBool::Undefined);
    assert_eq!(Lit::new(Var::new(2), true).value(&values), LBool::Undefined);
}

#[test]
fn lbool_conversions() {
    assert_eq!(LBool::from(true), LBool::True);
    assert_eq!(LBool::from(false), LBool::False);
    assert_eq!(LBool::from(0i32), LBool::True);
    assert_eq!(LBool::from(1i32), LBool::False);
    for n in [2i32, 3, -1, 100, i32::MIN, i32::MAX] {
        assert_eq!(LBool::from(n), LBool::Undefined);
    }
    assert_eq!(LBool::True.code(), 0);
    assert_eq!(LBool::False.code(), 1);
    assert_eq!(LBool::Undefined.code(), 2);
}

#[test]
fn var_lookups_and_conversions() {
    let v = Var::new(2);
    assert_eq!(v.into_usize(), 2);
    let values = vec![LBool::False, LBool::Undefined, LBool::True];
    assert_eq!(v.value(&values), LBool::True);
    assert!(v == 2);
    assert!(v > 1);
    assert!(v < 3);
    assert!(Var::from(5usize) == 5);
    let u: usize = Var::new(9).into();
    assert_eq!(u, 9);
}

#[test]
fn lit_xor_flips_sign_when_asked() {
    let l = Lit::new(Var::new(3), false);
    assert_eq!((l ^ false).value, 6);
    assert_eq!((l ^ true).value, 7);
    assert_eq!(((l ^ true) ^ true).value, 6);
}
