use doodle_core::arith::binary;
use doodle_core::arith::num_to_float;
use doodle_core::ast::Ast;
use doodle_core::ast::BinaryOp;
use doodle_core::ast::Node;
use doodle_core::bignum::BigNum;
use doodle_core::breakpoint::resolve_line;
use doodle_core::collect::refs_of_values;
use doodle_core::collect::Finalization;
use doodle_core::compare::equal;
use doodle_core::compare::order;
use doodle_core::dict;
use doodle_core::error::EngineFault;
use doodle_core::error::ExceptionKind;
use doodle_core::error::LimitKind;
use doodle_core::float::compare_floats;
use doodle_core::float::compare_int_float;
use doodle_core::float::decompose;
use doodle_core::float::exact_integer;
use doodle_core::float::Order;
use doodle_core::hash::hash_value;
use doodle_core::heap::Heap;
use doodle_core::heap::RecordType;
use doodle_core::heap::TypeKind;
use doodle_core::limits::FusedCounter;
use doodle_core::limits::Limits;
use doodle_core::limits::Meter;
use doodle_core::modload::LoadState;
use doodle_core::modload::ModuleLoad;
use doodle_core::named::find_named;
use doodle_core::number::as_num;
use doodle_core::number::int_value;
use doodle_core::record::copy_on_bind;
use doodle_core::render::render;
use doodle_core::resolve::ResolvedModule;
use doodle_core::ring::ElidedFrame;
use doodle_core::ring::RingBuffer;
use doodle_core::ring::RING_CAPACITY;
use doodle_core::siphash::SipHasher13;
use doodle_core::span::ModuleId;
use doodle_core::span::Span;
use doodle_core::value::CalIdx;
use doodle_core::value::Value;
use doodle_core::values::decode_text;

const S: Span = Span { start: 0, end: 0 };

fn flt(x: f64) -> Value {
    Value::Float(x.to_bits())
}

fn num(text: &str, h: &mut Heap) -> Value {
    int_value(BigNum::parse(text).unwrap(), h)
}

fn calc(op: BinaryOp, a: &str, b: &str) -> String {
    let mut h = Heap::new();
    let (a, b) = (num(a, &mut h), num(b, &mut h));
    let mut meter = Meter::new(Limits::standard());
    let v = binary(op, a, b, &mut h, &mut meter, S).unwrap();
    render(&h, v)
}

#[test]
fn large_integers_add_subtract_multiply_and_divide_exactly() {
    let a = "123456789012345678901234567890";
    let b = "-987654321098765432109876543210";
    assert_eq!(calc(BinaryOp::Add, a, b), "-864197532086419753208641975320");
    assert_eq!(calc(BinaryOp::Sub, a, b), "1111111110111111111011111111100");
    assert_eq!(
        calc(BinaryOp::Mul, a, b),
        "-121932631137021795226185032733622923332237463801111263526900"
    );
    assert_eq!(calc(BinaryOp::FloorDiv, b, a), "-9");
    assert_eq!(calc(BinaryOp::Rem, b, a), "123456780012345678001234567800");
    assert_eq!(calc(BinaryOp::Pow, "-3", "41"), "-36472996377170786403");
    assert_eq!(calc(BinaryOp::Pow, "-3", "2"), "9");
    assert_eq!(calc(BinaryOp::Div, "100000000000000000000", "8"), "12500000000000000000.0");
}

#[test]
fn integers_read_and_write_decimal_text() {
    assert_eq!(BigNum::parse("-170141183460469231731687303715884105728").unwrap().decimal(),
        "-170141183460469231731687303715884105728");
    assert_eq!(BigNum::parse("0").unwrap().decimal(), "0");
    assert!(BigNum::parse("").is_none());
    assert!(BigNum::parse("12a").is_none());
}

#[test]
fn an_integer_widens_to_the_nearest_float() {
    let mut h = Heap::new();
    let v = num("9007199254740993", &mut h);
    let n = as_num(v, &h).unwrap();
    assert_eq!(num_to_float(&n, S).unwrap(), 9007199254740992.0f64.to_bits());
    let v = num("100000000000000000000", &mut h);
    let n = as_num(v, &h).unwrap();
    assert_eq!(num_to_float(&n, S).unwrap(), 1e20f64.to_bits());
}

#[test]
fn a_float_is_a_mantissa_and_an_exponent() {
    for x in [1.5f64, -0.1, 1e300, 5e-324, 123456789.0] {
        let (m, e) = decompose(x.to_bits());
        let mantissa: f64 = m.decimal().parse().unwrap();
        assert_eq!(mantissa * 2f64.powi(e / 2) * 2f64.powi(e - e / 2), x);
    }
    assert_eq!(exact_integer(1e20f64.to_bits()).unwrap().decimal(), "100000000000000000000");
    assert_eq!(exact_integer((-6.0f64).to_bits()).unwrap().decimal(), "-6");
    assert!(exact_integer(0.5f64.to_bits()).is_none());
    assert!(exact_integer(f64::INFINITY.to_bits()).is_none());
}

#[test]
fn floats_and_integers_order_by_exact_value() {
    let two53 = 9007199254740992.0f64.to_bits();
    let above = BigNum::parse("9007199254740993").unwrap();
    assert!(matches!(compare_int_float(&above, two53), Some(Order::Greater)));
    assert!(matches!(compare_int_float(&above, f64::INFINITY.to_bits()), Some(Order::Less)));
    assert!(compare_int_float(&above, f64::NAN.to_bits()).is_none());
    assert!(matches!(compare_floats(0f64.to_bits(), (-0f64).to_bits()), Some(Order::Equal)));
    assert!(matches!(compare_floats((-1f64).to_bits(), 1f64.to_bits()), Some(Order::Less)));
    assert!(compare_floats(f64::NAN.to_bits(), 1f64.to_bits()).is_none());
    let h = Heap::new();
    match order(flt(f64::NAN), flt(1.0), &h, S) {
        Err(e) => assert_eq!(e.exception.kind, ExceptionKind::UndefinedOrdering),
        Ok(_) => panic!("a NaN has no order"),
    }
}

#[test]
fn floats_compute_and_render_as_binary64_does() {
    let mut h = Heap::new();
    let mut meter = Meter::new(Limits::standard());
    for (op, a, b, text) in [
        (BinaryOp::Add, 0.1, 0.2, "0.30000000000000004"),
        (BinaryOp::Sub, 1.0, 0.9, "0.09999999999999998"),
        (BinaryOp::Mul, 1.5, 3.0, "4.5"),
        (BinaryOp::Div, 1.0, 3.0, "0.3333333333333333"),
        (BinaryOp::FloorDiv, -7.5, 2.0, "-4.0"),
        (BinaryOp::Rem, -7.5, 2.0, "0.5"),
        (BinaryOp::Pow, 2.0, 0.5, "1.4142135623730951"),
        (BinaryOp::Mul, 1e22, 10.0, "99999999999999991611392.0"),
    ] {
        let v = binary(op, flt(a), flt(b), &mut h, &mut meter, S).unwrap();
        assert_eq!(render(&h, v), text);
    }
    assert_eq!(render(&h, flt(1e-7)), "0.0000001");
    assert_eq!(render(&h, flt(f64::INFINITY)), "inf");
    assert_eq!(render(&h, flt(f64::NAN)), "NaN");
}

#[test]
fn text_is_decoded_and_composed() {
    assert_eq!(decode_text(&b"ab".to_vec()), Ok("ab".to_string()));
    assert_eq!(decode_text(&"e\u{301}".as_bytes().to_vec()), Ok("\u{e9}".to_string()));
    assert_eq!(decode_text(&vec![b'a', 0xe2, 0x82]), Err(1));
}

#[test]
fn siphash_gives_known_values() {
    for (n, expected) in [
        (0u8, 0xabac0158050fc4dcu64),
        (1, 0xc9f49bf37d57ca93),
        (7, 0xd3927d989bb11140),
        (8, 0x369095118d299a8e),
        (15, 0xd320d86d2a519956),
        (20, 0xc0dc2f46a6cce040),
    ] {
        let bytes: Vec<u8> = (0..n).collect();
        let mut whole = SipHasher13::new();
        whole.write(&bytes);
        assert_eq!(whole.finish(), expected);
        let mut piecewise = SipHasher13::new();
        for b in &bytes {
            piecewise.write_u8(*b);
        }
        assert_eq!(piecewise.finish(), expected);
    }
}

fn record_type(h: &mut Heap, name: &str, fields: &[&str], is_ref: bool) -> doodle_core::value::TypeIdx {
    let rt = RecordType {
        name: name.to_string(),
        fields: fields.iter().map(|f| f.to_string()).collect(),
        is_ref,
    };
    h.alloc_type(TypeKind::Record(rt))
}

#[test]
fn a_copy_is_equal_and_apart() {
    let mut h = Heap::new();
    let t = record_type(&mut h, "P", &["x"], false);
    let inner = h.alloc_record(t, vec![Value::Int(1)]);
    let outer = h.alloc_record(t, vec![Value::Record(inner)]);
    let copy = copy_on_bind(Value::Record(outer), &mut h);
    assert!(equal(copy, Value::Record(outer), &h));
    let Value::Record(c) = copy else { panic!("not a record") };
    assert!(c != outer);
    let Value::Record(ci) = h.record(c).unwrap().fields[0] else { panic!("not a record") };
    assert!(ci != inner);
    h.record_set_field(ci, 0, Value::Int(2));
    assert!(matches!(h.record(inner).unwrap().fields[0], Value::Int(1)));
    assert!(!equal(copy, Value::Record(outer), &h));
    let shared = record_type(&mut h, "R", &["x"], true);
    let r = h.alloc_record(shared, vec![Value::Int(1)]);
    assert_eq!(copy_on_bind(Value::Record(r), &mut h), Value::Record(r));
}

#[test]
fn what_a_dict_stores_is_read_back_and_nothing_else_moves() {
    let mut h = Heap::new();
    let d = h.alloc_dict();
    let keys = [Value::Nil, Value::Bool(true), Value::Int(7), flt(0.5), flt(f64::NAN)];
    for (i, k) in keys.iter().enumerate() {
        dict::insert(&mut h, d, *k, Value::Int(i as i64), S).unwrap();
    }
    dict::insert(&mut h, d, flt(7.0), Value::Int(70), S).unwrap();
    for (i, k) in keys.iter().enumerate() {
        let expected = if i == 2 { 70 } else { i as i64 };
        assert_eq!(dict::get(&h, d, *k, S).unwrap(), Some(Value::Int(expected)));
        assert_eq!(h.dict(d).unwrap().entries[i].0, *k);
    }
    assert_eq!(h.dict(d).unwrap().entries.len(), keys.len());
    assert_eq!(dict::get(&h, d, Value::Int(8), S).unwrap(), None);
    let l = h.alloc_list(vec![]);
    match dict::insert(&mut h, d, Value::List(l), Value::Nil, S) {
        Err(e) => assert_eq!(e.exception.kind, ExceptionKind::UnhashableKey),
        Ok(()) => panic!("a list is no key"),
    }
}

#[test]
fn equality_of_dicts_is_symmetric_and_hashes_follow_it() {
    let mut h = Heap::new();
    let (a, b) = (h.alloc_dict(), h.alloc_dict());
    for (k, v) in [(1i64, 2i64), (3, 4), (5, 6)] {
        dict::insert(&mut h, a, Value::Int(k), Value::Int(v), S).unwrap();
    }
    for (k, v) in [(5.0, 6), (1.0, 2), (3.0, 4)] {
        dict::insert(&mut h, b, flt(k), Value::Int(v), S).unwrap();
    }
    assert!(equal(Value::Dict(a), Value::Dict(b), &h));
    assert!(equal(Value::Dict(b), Value::Dict(a), &h));
    dict::insert(&mut h, b, flt(3.0), Value::Int(9), S).unwrap();
    assert!(!equal(Value::Dict(a), Value::Dict(b), &h));
    assert!(!equal(Value::Dict(b), Value::Dict(a), &h));
    assert_eq!(hash_value(Value::Int(3), &h), hash_value(flt(3.0), &h));
    assert!(hash_value(Value::Int(3), &h) != hash_value(Value::Int(4), &h));
}

#[test]
fn a_collection_keeps_what_roots_reach_and_hands_out_each_finalizer_once() {
    let mut h = Heap::new();
    let kept = h.alloc_foreign(1, 10, Some(100));
    let lost = h.alloc_foreign(1, 20, Some(200));
    h.alloc_foreign(1, 30, None);
    let inner = h.alloc_list(vec![Value::Foreign(kept)]);
    let root = h.alloc_list(vec![Value::List(inner)]);
    let cycle = h.alloc_list(vec![]);
    h.list_push(cycle, Value::List(cycle));
    h.list_push(cycle, Value::Foreign(lost));
    let before = h.live_objects();
    let roots = vec![Value::List(root)];
    let first = h.collect(refs_of_values(&roots));
    assert_eq!(first, vec![Finalization { finalizer: 200, ptr: 20 }]);
    assert_eq!(before - h.live_objects(), 3);
    assert!(h.list(cycle).is_none());
    assert_eq!(h.list(root).unwrap().len(), 1);
    assert!(h.collect(refs_of_values(&roots)).is_empty());
    assert_eq!(h.finalize_all(), vec![Finalization { finalizer: 100, ptr: 10 }]);
    assert!(h.finalize_all().is_empty() || h.live_objects() > 0);
}

#[test]
fn without_roots_nothing_is_left() {
    let mut h = Heap::new();
    let a = h.alloc_list(vec![]);
    h.list_push(a, Value::List(a));
    h.alloc_string("text".to_string());
    h.collect(refs_of_values(&vec![]));
    assert_eq!(h.live_objects(), 0);
    assert_eq!(h.bytes_allocated(), 0);
}

#[test]
fn a_slice_lasts_as_long_as_its_fuel() {
    let limits = Limits { step_budget: 5, ..Limits::standard() };
    let mut c = FusedCounter::new(&limits);
    c.arm_slice(Some(2));
    assert!(!c.sliced_out());
    c.spend().unwrap();
    assert!(!c.sliced_out());
    c.spend().unwrap();
    assert!(c.sliced_out());
    c.arm_slice(None);
    assert!(!c.sliced_out());
    assert!(c.charge(2));
    c.spend().unwrap();
    assert_eq!(c.spend(), Err(EngineFault::LimitExceeded(LimitKind::StepBudget)));
    assert!(!c.charge(1));
}

#[test]
fn an_operation_is_admitted_within_every_limit() {
    let limits = Limits { max_op_result_bytes: 100, step_budget: 1000, ..Limits::standard() };
    let mut m = Meter::new(limits);
    assert!(m.admit_op_result(100));
    assert!(m.take_pending_fault().is_none());
    assert!(!m.admit_op_result(101));
    assert_eq!(
        m.take_pending_fault(),
        Some(EngineFault::LimitExceeded(LimitKind::OpResult))
    );
    m.set_pending_fault(EngineFault::Internal);
    m.set_pending_fault(EngineFault::Cancelled);
    assert_eq!(m.take_pending_fault(), Some(EngineFault::Cancelled));
    assert!(m.take_pending_fault().is_none());
    assert_eq!(m.check_stack_depth(10000), Ok(()));
    assert_eq!(
        m.check_stack_depth(10001),
        Err(EngineFault::LimitExceeded(LimitKind::StackDepth))
    );
}

#[test]
fn the_history_of_tail_calls_is_bounded() {
    let mut ring = RingBuffer::new();
    assert!(ring.recent(0).is_none());
    for i in 0..RING_CAPACITY + 10 {
        ring.record(ElidedFrame { callable: CalIdx(i), consuming_serial: i as u64 });
    }
    assert_eq!(ring.len(), RING_CAPACITY);
    assert_eq!(ring.recent(0).unwrap().callable, CalIdx(RING_CAPACITY + 9));
    let all = ring.most_recent_first();
    assert_eq!(all.len(), RING_CAPACITY);
    assert_eq!(all[RING_CAPACITY - 1], CalIdx(10));
}

fn path(text: &str) -> Vec<String> {
    text.split('.').map(|s| s.to_string()).collect()
}

#[test]
fn a_module_is_known_by_its_canonical_id_and_its_paths() {
    let mut load = ModuleLoad::new("main");
    assert_eq!(load.by_canonical("main"), Some(ModuleId(0)));
    assert_eq!(load.by_path(&path("a.b")), None);
    load.begin(&path("a.b"), "file:ab", ModuleId(1));
    assert_eq!(load.state(ModuleId(1)), Some(LoadState::Loading));
    assert_eq!(load.by_path(&path("a.b")), Some(ModuleId(1)));
    load.begin(&path("c"), "file:c", ModuleId(2));
    assert_eq!(load.by_canonical("file:ab"), Some(ModuleId(1)));
    load.alias_path(&path("other"), ModuleId(1));
    assert_eq!(load.by_path(&path("other")), Some(ModuleId(1)));
    assert_eq!(load.path_of(ModuleId(1)), Some("a.b".to_string()));
    assert_eq!(load.canonical_of(ModuleId(2)), Some("file:c"));
    load.set_state(ModuleId(1), LoadState::Failed(Value::Int(3)));
    assert_eq!(load.failed_values(), vec![Value::Int(3)]);
    assert!(!load.is_not_module(&path("x.y")));
    load.mark_not_module(&path("x.y"));
    assert!(load.is_not_module(&path("x.y")));
}

#[test]
fn the_first_of_a_name_is_found() {
    let list = vec![("a".to_string(), 1), ("b".to_string(), 2), ("a".to_string(), 3)];
    assert_eq!(find_named(&list, "a"), Some(1));
    assert_eq!(find_named(&list, "b"), Some(2));
    assert_eq!(find_named(&list, "c"), None);
}

/// A module of empty-looking statements, one per line.
fn lines(n: u32) -> ResolvedModule {
    let mut ast = Ast::new();
    let mut stmts = Vec::new();
    let mut stmt_spans = Vec::new();
    for i in 0..n {
        let span = Span::new(i * 4, i * 4 + 1);
        let id = ast.push(Node::NilLit, span);
        ast.push_line(i * 4 + 2);
        ast.push_line(i * 4 + 4);
        stmts.push(id);
        stmt_spans.push((span, id));
    }
    let root = ast.push(Node::Module { stmts, doc: None }, Span::new(0, n * 4));
    ResolvedModule {
        canonical_id: ModuleId(0),
        ast,
        root,
        stmt_spans,
        callables: Vec::new(),
        globals: Vec::new(),
        exports: None,
        name_refs: Vec::new(),
        resolutions: Vec::new(),
        exit_targets: Vec::new(),
        tail_calls: Vec::new(),
    }
}

#[test]
fn a_breakpoint_snaps_forward_to_a_statement() {
    let m = lines(3);
    let at = |line: u32| resolve_line(&m, line).map(|id| m.ast.line_of(m.ast.span(id).start));
    assert_eq!(at(1), Some(1));
    assert_eq!(at(2), Some(3));
    assert_eq!(at(3), Some(3));
    assert_eq!(at(5), Some(5));
    assert_eq!(at(6), None);
}

#[test]
fn order_is_reversed_with_its_operands_and_calls_equal_what_is_equal() {
    let mut h = Heap::new();
    let texts: Vec<Value> = ["", "a", "ab", "b", "\u{7f}", "\u{80}", "\u{7ff}", "\u{800}",
        "\u{ffff}", "\u{10000}", "\u{10ffff}"]
        .iter()
        .map(|t| Value::Str(h.alloc_string(t.to_string())))
        .collect();
    for (i, &a) in texts.iter().enumerate() {
        for (j, &b) in texts.iter().enumerate() {
            let o = order(a, b, &h, S).unwrap();
            let expected = if i < j {
                Order::Less
            } else if i > j {
                Order::Greater
            } else {
                Order::Equal
            };
            assert_eq!(o, expected);
            assert_eq!(o == Order::Equal, equal(a, b, &h));
        }
    }
    let big = num("1180591620717411303425", &mut h);
    let float = flt(1180591620717411303424.0);
    assert_eq!(order(big, float, &h, S).unwrap(), Order::Greater);
    assert_eq!(order(float, big, &h, S).unwrap(), Order::Less);
    assert_eq!(order(Value::Int(2), flt(2.0), &h, S).unwrap(), Order::Equal);
}

#[test]
fn equality_is_transitive_over_cycles_and_dicts() {
    let mut h = Heap::new();
    let lists: Vec<Value> = (0..3)
        .map(|n| {
            let d = h.alloc_dict();
            for k in [n, (n + 1) % 3, (n + 2) % 3] {
                dict::insert(&mut h, d, Value::Int(k), Value::Int(k * k), S).unwrap();
            }
            let l = h.alloc_list(vec![Value::Dict(d)]);
            h.list_push(l, Value::List(l));
            Value::List(l)
        })
        .collect();
    for &a in &lists {
        for &b in &lists {
            assert!(equal(a, b, &h));
        }
    }
}
