use uiua_values::array::Array;
use uiua_values::builder::ValueBuilder;
use uiua_values::func::{Function, Signature};
use uiua_values::pervade::{BinOp, Env, UnOp};
use uiua_values::value::Value;

fn nb(x: f64) -> u64 {
    x.to_bits()
}

fn num(xs: &[f64]) -> Value {
    Value::num_list(xs.iter().map(|x| x.to_bits()).collect())
}

fn bytes(xs: &[u8]) -> Value {
    Value::byte_list(xs.to_vec())
}

fn add_f() -> impl Fn(u64, u64) -> u64 + Sync {
    |x: u64, y: u64| (f64::from_bits(x) + f64::from_bits(y)).to_bits()
}

fn sub_f() -> impl Fn(u64, u64) -> u64 + Sync {
    |x: u64, y: u64| (f64::from_bits(x) - f64::from_bits(y)).to_bits()
}

#[test]
fn shape_invariant_on_construction() {
    let a = Array::<u64>::new(vec![2, 3], vec![0; 6]).expect("shape fits");
    assert_eq!(a.flat_len(), 6);
    assert_eq!(a.rank(), 2);
    assert!(Array::<u64>::new(vec![2, 3], vec![0; 5]).is_none());
    // empty shape means scalar: exactly one element
    let s = Array::<u64>::scalar(7);
    assert_eq!(s.flat_len(), 1);
    assert_eq!(s.rank(), 0);
    assert!(Array::<u64>::new(vec![], vec![1, 2]).is_none());
}

#[test]
fn byte_num_equivalence() {
    let b = bytes(&[0, 1, 2, 255]);
    let n = num(&[0.0, 1.0, 2.0, 255.0]);
    assert!(b.eq_val(&n));
    assert!(n.eq_val(&b));
    assert_eq!(b.hash64(), n.hash64());
    let n2 = num(&[0.0, 1.0, 2.0, 254.0]);
    assert!(!b.eq_val(&n2));
}

#[test]
fn compress_safety_and_idempotence() {
    let mut v = num(&[0.0, 3.0, 255.0]);
    let orig = v.dup();
    v.compress();
    assert!(v.as_byte_array().is_some(), "compress should pack into bytes");
    assert!(v.eq_val(&orig), "compress must not change the value");
    assert_eq!(v.hash64(), orig.hash64());
    let once = v.dup();
    v.compress();
    assert!(v.eq_val(&once), "compress twice equals compress once");
    assert!(v.as_byte_array().is_some());
    // out-of-range or fractional elements leave the value in number storage
    let mut w = num(&[1.0, 256.0]);
    w.compress();
    assert!(w.as_num_array().is_some());
    let mut f = num(&[1.5]);
    f.compress();
    assert!(f.as_num_array().is_some());
}

#[test]
fn negative_zero_is_the_byte_zero() {
    // the two zero patterns are the same number everywhere
    assert!(Value::scalar_num(nb(-0.0)).eq_val(&Value::scalar_num(nb(0.0))));
    assert!(Value::scalar_num(nb(-0.0)).eq_val(&Value::scalar_byte(0)));
    assert_eq!(
        Value::scalar_num(nb(-0.0)).hash64(),
        Value::scalar_byte(0).hash64()
    );
    assert_eq!(
        Value::scalar_num(nb(-0.0)).total_cmp(&Value::scalar_byte(0)),
        std::cmp::Ordering::Equal
    );
    // and compress packs the negative zero as the byte 0
    let mut v = num(&[-0.0, 3.0]);
    let orig = v.dup();
    v.compress();
    assert!(v.as_byte_array().is_some(), "negative zero is an integer in range");
    assert!(v.eq_val(&orig));
    assert!(v.eq_val(&bytes(&[0, 3])));
}

#[test]
fn promotion_commutativity() {
    let env = Env::new();
    let a = bytes(&[1, 2, 3]);
    let b = num(&[10.0, 20.0, 30.0]);
    let mixed = a.dup().bin_op(BinOp::Add, b.dup(), &env, &add_f()).expect("mixed add");
    let promoted = num(&[1.0, 2.0, 3.0])
        .bin_op(BinOp::Add, b, &env, &add_f())
        .expect("promoted add");
    assert!(mixed.eq_val(&promoted));
}

#[test]
fn total_order_scenario() {
    let n = num(&[1.0]);
    let c = Value::scalar_char('a');
    let f = Value::scalar_func(Function::code(Signature::new(1, 1), 7));
    assert_eq!(n.total_cmp(&c), std::cmp::Ordering::Less);
    assert_eq!(c.total_cmp(&f), std::cmp::Ordering::Less);
    assert_eq!(n.total_cmp(&f), std::cmp::Ordering::Less);
    assert_eq!(f.total_cmp(&n), std::cmp::Ordering::Greater);
    assert_eq!(n.total_cmp(&n), std::cmp::Ordering::Equal);
    // bytes order numerically against numbers
    let b = bytes(&[2]);
    let n1 = num(&[1.0]);
    let n3 = num(&[3.0]);
    assert_eq!(n1.total_cmp(&b), std::cmp::Ordering::Less);
    assert_eq!(b.total_cmp(&n3), std::cmp::Ordering::Less);
}

#[test]
fn builder_equivalence() {
    let env = Env::new();
    let mut builder = ValueBuilder::with_capacity(9);
    builder.add_row(num(&[1.0, 2.0, 3.0]), &env).expect("first row");
    builder.add_row(num(&[4.0, 5.0, 6.0]), &env).expect("second row");
    builder.add_row(num(&[7.0, 8.0, 9.0]), &env).expect("third row");
    let built = builder.finish();
    assert_eq!(built.shape().as_slice(), &[3, 3]);
    let direct = Value::Num(
        Array::new(
            vec![3, 3],
            [1.0f64, 2.0, 3.0, 4.0, 5.0, 6.0, 7.0, 8.0, 9.0]
                .iter()
                .map(|x| x.to_bits())
                .collect(),
        )
        .expect("shape fits"),
    );
    assert!(built.eq_val(&direct));
}

#[test]
fn builder_empty_and_mismatch() {
    let env = Env::new();
    let empty = ValueBuilder::new().finish();
    assert!(empty.as_byte_array().is_some());
    assert_eq!(empty.flat_len(), 0);
    assert_eq!(empty.shape().as_slice(), &[0]);
    let mut builder = ValueBuilder::new();
    builder.add_row(num(&[1.0, 2.0]), &env).expect("first row");
    assert!(builder.add_row(num(&[1.0, 2.0, 3.0]), &env).is_err());
}

#[test]
fn builder_promotes_byte_rows() {
    let env = Env::new();
    let mut builder = ValueBuilder::new();
    builder.add_row(num(&[1.0, 2.0]), &env).expect("number row");
    builder.add_row(bytes(&[3, 4]), &env).expect("byte row");
    let built = builder.finish();
    let want = Value::Num(
        Array::new(vec![2, 2], vec![nb(1.0), nb(2.0), nb(3.0), nb(4.0)]).unwrap(),
    );
    assert!(built.eq_val(&want));
}

#[test]
fn fill_retry_on_byte_subtraction() {
    let bare = Env::new();
    let a = bytes(&[1]);
    let b = bytes(&[2]);
    let err = match a.dup().bin_op(BinOp::Sub, b.dup(), &bare, &sub_f()) {
        Err(e) => e,
        Ok(_) => panic!("byte subtraction below zero must fail without a fill"),
    };
    assert!(err.fill, "a byte-domain failure is fill-recoverable");
    let filled = Env::with_fill(nb(0.0));
    let wide = a.dup().bin_op(BinOp::Sub, b.dup(), &filled, &sub_f()).expect("fill retry");
    let direct = num(&[1.0])
        .bin_op(BinOp::Sub, num(&[2.0]), &filled, &sub_f())
        .expect("direct numeric subtraction");
    assert!(wide.eq_val(&direct));
    assert!(wide.eq_val(&num(&[-1.0])));
}

#[test]
fn byte_subtraction_in_range_stays_byte() {
    let env = Env::new();
    let r = bytes(&[9, 5]).bin_op(BinOp::Sub, bytes(&[4, 5]), &env, &sub_f()).unwrap();
    assert!(r.as_byte_array().is_some());
    assert!(r.eq_val(&bytes(&[5, 0])));
}

#[test]
fn as_nat_scenarios() {
    assert_eq!(Value::scalar_num(nb(3.0)).as_nat("must be a natural number").unwrap(), 3);
    let neg = Value::scalar_num(nb(-1.0)).as_nat("must be a natural number").unwrap_err();
    assert!(neg.message.contains("negative"), "message was {}", neg.message);
    let frac = Value::scalar_num(nb(1.5)).as_nat("must be a natural number").unwrap_err();
    assert!(frac.message.contains("fractional part"), "message was {}", frac.message);
    let ranked = num(&[1.0, 2.0]).as_nat("must be a natural number").unwrap_err();
    assert!(ranked.message.contains("rank is 1"), "message was {}", ranked.message);
    let kinded = Value::scalar_char('x').as_nat("must be a natural number").unwrap_err();
    assert!(kinded.message.contains("character"), "message was {}", kinded.message);
}

#[test]
fn as_int_and_bool() {
    assert_eq!(Value::scalar_num(nb(-7.0)).as_int("must be an integer").unwrap(), -7);
    assert_eq!(Value::scalar_byte(9).as_int("must be an integer").unwrap(), 9);
    assert_eq!(Value::scalar_num(nb(0.0)).as_bool("must be a boolean").unwrap(), false);
    assert_eq!(Value::scalar_num(nb(2.0)).as_bool("must be a boolean").unwrap(), true);
    assert_eq!(Value::scalar_byte(0).as_bool("must be a boolean").unwrap(), false);
    assert!(Value::scalar_num(nb(0.5)).as_bool("must be a boolean").is_err());
}

#[test]
fn as_num_promotes_bytes() {
    let got = Value::scalar_byte(200).as_num("must be a number").unwrap();
    assert_eq!(f64::from_bits(got), 200.0);
    assert_eq!(Value::scalar_num(nb(2.5)).as_num("must be a number").unwrap(), nb(2.5));
}

#[test]
fn list_extractors() {
    assert_eq!(
        num(&[0.0, 4.0, 9.0]).as_naturals("must be naturals").unwrap(),
        vec![0usize, 4, 9]
    );
    assert_eq!(
        num(&[-2.0, 4.0]).as_integers("must be integers").unwrap(),
        vec![-2isize, 4]
    );
    assert_eq!(bytes(&[7, 8]).as_indices("must be indices").unwrap(), vec![7isize, 8]);
    let neg = num(&[1.0, -1.0]).as_naturals("must be naturals").unwrap_err();
    assert_eq!(neg.message, "must be naturals");
    let frac = num(&[1.25]).as_integers("must be integers").unwrap_err();
    assert_eq!(frac.message, "must be integers");
}

#[test]
fn text_value_scenario() {
    let v = Value::from_text("hi");
    assert_eq!(v.rank(), 1);
    assert_eq!(v.flat_len(), 2);
    assert!(v.eq_val(&Value::char_list(vec!['h', 'i'])));
    assert_eq!(v.as_string("must be a string").unwrap(), "hi");
}

#[test]
fn into_bytes_paths() {
    assert_eq!(bytes(&[1, 2]).into_bytes("must be bytes").unwrap(), vec![1, 2]);
    assert_eq!(
        num(&[1.0, 2.9, -3.0, 300.0]).into_bytes("must be bytes").unwrap(),
        vec![1, 2, 0, 255]
    );
    assert_eq!(
        Value::from_text("hé").into_bytes("must be bytes").unwrap(),
        "hé".as_bytes().to_vec()
    );
    // rank 0 counts as a one-element list
    assert_eq!(Value::scalar_byte(7).into_bytes("must be bytes").unwrap(), vec![7]);
    assert_eq!(Value::scalar_num(nb(2.9)).into_bytes("must be bytes").unwrap(), vec![2]);
    assert_eq!(Value::scalar_char('A').into_bytes("must be bytes").unwrap(), vec![b'A']);
    let grid = Value::Byte(Array::new(vec![1, 2], vec![1, 2]).unwrap());
    let err = grid.into_bytes("must be bytes").unwrap_err();
    assert!(err.message.contains("rank is 2"), "message was {}", err.message);
}

#[test]
fn coerce_to_function_scenario() {
    let v = num(&[1.0, 2.0]);
    let fs = v.coerce_to_function();
    assert_eq!(fs.rank(), 1);
    assert_eq!(fs.flat_len(), 2);
    for (i, expect) in [1.0f64, 2.0].iter().enumerate() {
        let f = &fs.data()[i];
        let boxed = f.as_boxed().expect("a coerced element is a boxed constant");
        assert!(boxed.eq_val(&Value::scalar_num(expect.to_bits())));
        assert_eq!(f.signature(), Signature::new(0, 1));
    }
}

#[test]
fn comparisons_across_kinds() {
    let env = Env::new();
    let r = num(&[1.0, 2.0])
        .bin_op(BinOp::Lt, num(&[2.0, 2.0]), &env, &add_f())
        .unwrap();
    assert!(r.eq_val(&bytes(&[1, 0])));
    // numbers rank below characters whatever the values
    let r2 = num(&[9.0]).bin_op(BinOp::Lt, Value::scalar_char('a'), &env, &add_f()).unwrap();
    assert!(r2.eq_val(&bytes(&[1])));
    let r3 = Value::scalar_char('a').bin_op(BinOp::Lt, num(&[9.0]), &env, &add_f()).unwrap();
    assert!(r3.eq_val(&bytes(&[0])));
    let r4 = Value::scalar_char('a')
        .bin_op(BinOp::Max, Value::scalar_char('b'), &env, &add_f())
        .unwrap();
    assert!(r4.eq_val(&Value::scalar_char('b')));
}

#[test]
fn broadcast_prefix() {
    let env = Env::new();
    let m = Value::Num(
        Array::new(vec![2, 2], vec![nb(1.0), nb(2.0), nb(3.0), nb(4.0)]).unwrap(),
    );
    let v = num(&[10.0, 20.0]);
    let r = v.bin_op(BinOp::Add, m, &env, &add_f()).unwrap();
    let want = Value::Num(
        Array::new(vec![2, 2], vec![nb(11.0), nb(12.0), nb(23.0), nb(24.0)]).unwrap(),
    );
    assert!(r.eq_val(&want));
    let bad = num(&[1.0, 2.0, 3.0]).bin_op(BinOp::Add, num(&[1.0, 2.0]), &env, &add_f());
    assert!(bad.is_err());
}

#[test]
fn boxed_binary_transparency() {
    let env = Env::new();
    // a scalar boxed constant unwraps and retries
    let boxed = Value::scalar_func(Function::constant(num(&[1.0, 2.0])));
    let r = boxed.bin_op(BinOp::Add, num(&[10.0, 10.0]), &env, &add_f()).unwrap();
    assert!(r.eq_val(&num(&[11.0, 12.0])));
    // a non-scalar function array combines element by element through boxes
    let arr = Value::Func(Array::list(vec![
        Function::constant(Value::scalar_num(nb(1.0))),
        Function::constant(Value::scalar_num(nb(2.0))),
    ]));
    let r2 = arr.bin_op(BinOp::Add, num(&[10.0, 20.0]), &env, &add_f()).unwrap();
    let fs = r2.as_func_array().expect("boxed result stays boxed");
    let b0 = fs.data()[0].as_boxed().unwrap();
    let b1 = fs.data()[1].as_boxed().unwrap();
    assert!(b0.eq_val(&Value::scalar_num(nb(11.0))));
    assert!(b1.eq_val(&Value::scalar_num(nb(22.0))));
    // a code function is not a box and fails
    let code = Value::Func(Array::list(vec![Function::code(Signature::new(1, 1), 3)]));
    assert!(code.bin_op(BinOp::Add, num(&[1.0]), &env, &add_f()).is_err());
}

#[test]
fn unary_pervasive() {
    let neg = |x: u64| (-f64::from_bits(x)).to_bits();
    let v = (&num(&[1.0, -2.0])).un_op(UnOp::Neg, &neg).unwrap();
    assert!(v.eq_val(&num(&[-1.0, 2.0])));
    // bytes promote to numbers for negation
    let b = (&bytes(&[3])).un_op(UnOp::Neg, &neg).unwrap();
    assert!(b.as_num_array().is_some());
    assert!(b.eq_val(&num(&[-3.0])));
    // sign keeps byte storage
    let sign = |x: u64| {
        let f = f64::from_bits(x);
        (if f > 0.0 { 1.0f64 } else if f < 0.0 { -1.0 } else { 0.0 }).to_bits()
    };
    let s = (&bytes(&[0, 7])).un_op(UnOp::Sign, &sign).unwrap();
    assert!(s.as_byte_array().is_some());
    assert!(s.eq_val(&bytes(&[0, 1])));
    // characters reject math
    assert!((&Value::scalar_char('c')).un_op(UnOp::Neg, &neg).is_err());
    // boxed elements apply one level deep
    let boxed = Value::scalar_func(Function::constant(Value::scalar_num(nb(5.0))));
    let r = (&boxed).un_op(UnOp::Neg, &neg).unwrap();
    let fs = r.as_func_array().unwrap();
    assert!(fs.data()[0].as_boxed().unwrap().eq_val(&Value::scalar_num(nb(-5.0))));
}

#[test]
fn rows_and_first_dim_zero() {
    let m = Value::Num(
        Array::new(vec![2, 2], vec![nb(1.0), nb(2.0), nb(3.0), nb(4.0)]).unwrap(),
    );
    let rows = m.rows();
    assert_eq!(rows.len(), 2);
    assert!(rows[0].eq_val(&num(&[1.0, 2.0])));
    assert!(rows[1].eq_val(&num(&[3.0, 4.0])));
    let rev = m.rows_rev();
    assert!(rev[0].eq_val(&num(&[3.0, 4.0])));
    let z = m.first_dim_zero();
    assert_eq!(z.shape().as_slice(), &[0, 2]);
    assert_eq!(z.flat_len(), 0);
}

#[test]
fn value_signature() {
    assert_eq!(num(&[1.0]).signature(), Signature::new(0, 1));
    let f = Value::scalar_func(Function::code(Signature::new(2, 1), 11));
    assert_eq!(f.signature(), Signature::new(2, 1));
}

#[test]
fn kind_names() {
    assert_eq!(num(&[1.0]).kind_name(), "number");
    assert_eq!(bytes(&[1]).kind_name(), "number");
    assert_eq!(Value::scalar_char('x').kind_name(), "character");
    assert_eq!(
        Value::scalar_func(Function::code(Signature::new(0, 1), 0)).kind_name(),
        "function"
    );
}

#[test]
fn std_operators_follow_the_total_order() {
    let b = bytes(&[5]);
    let n = num(&[5.0]);
    assert!(b == n);
    assert!(num(&[1.0]) < Value::scalar_char('a'));
    assert!(Value::scalar_char('a') < Value::scalar_func(Function::code(Signature::new(0, 1), 0)));
    assert!(num(&[1.0]) < num(&[2.0]));
    assert!(!(num(&[2.0]) < num(&[1.0])));
}

#[test]
fn byte_roundings_keep_byte_storage() {
    let f = |x: u64| f64::from_bits(x).floor().to_bits();
    let v = (&bytes(&[0, 200])).un_op(UnOp::Floor, &f).unwrap();
    assert!(v.as_byte_array().is_some());
    assert!(v.eq_val(&bytes(&[0, 200])));
}

#[test]
fn as_string_rank_error() {
    let grid = Value::Char(Array::new(vec![1, 2], vec!['h', 'i']).unwrap());
    let err = grid.as_string("must be a string").unwrap_err();
    assert!(err.message.contains("rank is 2"), "message was {}", err.message);
}

#[test]
fn into_function_scalar_only() {
    let f = Function::code(Signature::new(1, 2), 4);
    let v = Value::scalar_func(f);
    let back = v.into_function().ok().expect("a scalar function value unboxes");
    assert_eq!(back.signature(), Signature::new(1, 2));
    assert!(num(&[1.0]).into_function().is_err());
}

#[test]
fn builder_broadcasts_prefix_rows() {
    let env = Env::new();
    let mut builder = ValueBuilder::new();
    builder.add_row(num(&[1.0, 2.0]), &env).expect("first row");
    builder.add_row(Value::scalar_num(nb(9.0)), &env).expect("scalar row broadcasts");
    let built = builder.finish();
    let want = Value::Num(
        Array::new(vec![2, 2], vec![nb(1.0), nb(2.0), nb(9.0), nb(9.0)]).unwrap(),
    );
    assert!(built.eq_val(&want));
}

#[test]
fn builder_byte_rows_stay_bytes() {
    let env = Env::new();
    let mut builder = ValueBuilder::new();
    builder.add_row(bytes(&[1, 2]), &env).expect("first row");
    builder.add_row(bytes(&[3, 4]), &env).expect("second row");
    builder.add_row(bytes(&[5, 6]), &env).expect("third row");
    let built = builder.finish();
    assert!(built.as_byte_array().is_some());
    assert_eq!(built.shape().as_slice(), &[3, 2]);
    let direct = Value::Byte(Array::new(vec![3, 2], vec![1, 2, 3, 4, 5, 6]).unwrap());
    assert!(built.eq_val(&direct));
}

#[test]
fn flat_values_are_scalars() {
    let m = Value::Num(Array::new(vec![2, 2], vec![nb(1.0), nb(2.0), nb(3.0), nb(4.0)]).unwrap());
    let flat = m.flat_values();
    assert_eq!(flat.len(), 4);
    for (i, expect) in [1.0f64, 2.0, 3.0, 4.0].iter().enumerate() {
        assert_eq!(flat[i].rank(), 0);
        assert!(flat[i].eq_val(&scalar_of(*expect)));
    }
}

fn scalar_of(x: f64) -> Value {
    Value::scalar_num(x.to_bits())
}
