use doodle_core::ast::Ast;
use doodle_core::ast::Node;
use doodle_core::bignum::BigNum;
use doodle_core::collect::Finalization;
use doodle_core::float::CANONICAL_NAN_BITS;
use doodle_core::handle::Handle;
use doodle_core::instance::Instance;
use doodle_core::number::int_value;
use doodle_core::resolve::BodyKind;
use doodle_core::resolve::CallableInfo;
use doodle_core::resolve::ResolvedModule;
use doodle_core::span::ModuleId;
use doodle_core::span::Span;
use doodle_core::value::Kind;
use doodle_core::values::ValueError;

/// An instance of a trivial program: the handles need no running one.
fn instance() -> Instance {
    let mut ast = Ast::new();
    let one = ast.push(Node::IntLit(1), Span { start: 0, end: 1 });
    let root = ast.push(
        Node::Module { stmts: vec![one], doc: None },
        Span { start: 0, end: 2 },
    );
    Instance::load(ResolvedModule {
        canonical_id: ModuleId(0),
        ast,
        root,
        stmt_spans: vec![(Span { start: 0, end: 1 }, one)],
        callables: vec![CallableInfo {
            decl: root,
            body: root,
            kind: BodyKind::ModuleTopLevel,
            params: vec![],
            slot_count: 0,
            cell_boxed: vec![],
            captures: vec![],
            slot_names: vec![],
        }],
        globals: vec![],
        exports: None,
        name_refs: vec![],
        resolutions: vec![None, None],
        exit_targets: vec![None, None],
        tail_calls: vec![false, false],
    })
}

fn float(inst: &mut Instance, x: f64) -> Handle {
    inst.make_float(x.to_bits())
}

fn float_of(inst: &Instance, h: Handle) -> f64 {
    f64::from_bits(inst.as_float(h).unwrap())
}

#[test]
fn int_round_trips_and_reports_its_kind() {
    let mut inst = instance();
    let h = inst.make_int(42);
    assert_eq!(inst.kind_of(h), Ok(Kind::Int));
    assert_eq!(inst.as_int(h), Ok(42));
    assert_eq!(inst.is_nil(h), Ok(false));
}

#[test]
fn a_typed_reader_on_the_wrong_kind_reports_both_kinds() {
    let mut inst = instance();
    let h = inst.make_bool(true);
    assert_eq!(inst.as_bool(h), Ok(true));
    assert_eq!(
        inst.as_int(h),
        Err(ValueError::WrongKind {
            expected: Kind::Int,
            got: Kind::Bool,
        })
    );
}

#[test]
fn a_bignum_is_int_kind_but_out_of_i64_range() {
    let mut inst = instance();
    let big = int_value(BigNum::parse(&i128::MAX.to_string()).unwrap(), &mut inst.heap);
    let h = inst.handles.intern(big);
    assert_eq!(inst.kind_of(h), Ok(Kind::Int));
    assert_eq!(inst.as_int(h), Err(ValueError::IntOutOfRange));
    // The arbitrary-precision reader renders the same bignum in full (no i64 ceiling).
    assert_eq!(inst.as_int_decimal(h), Ok(i128::MAX.to_string()));
}

#[test]
fn make_int_decimal_round_trips_a_bignum_beyond_i64() {
    let mut inst = instance();
    // 2^128, comfortably past i64 — the host embedding builds this from a JS bigint.
    let text = "340282366920938463463374607431768211456";
    let h = inst.make_int_decimal(text).unwrap();
    assert_eq!(inst.kind_of(h), Ok(Kind::Int));
    assert_eq!(inst.as_int_decimal(h), Ok(text.to_string()));
    // It is a genuine bignum: the fixed-width reader still refuses it.
    assert_eq!(inst.as_int(h), Err(ValueError::IntOutOfRange));
}

#[test]
fn make_int_decimal_canonicalizes_an_i64_magnitude_to_a_machine_word() {
    let mut inst = instance();
    // A magnitude fitting i64 must intern as a machine-word `Int`, so the
    // fixed-width reader accepts it — the decimal path is not a separate integer type.
    let h = inst.make_int_decimal("-42").unwrap();
    assert_eq!(inst.as_int(h), Ok(-42));
    assert_eq!(inst.as_int_decimal(h), Ok("-42".to_string()));
}

#[test]
fn make_int_decimal_rejects_non_integer_text() {
    let mut inst = instance();
    assert_eq!(inst.make_int_decimal("1.5"), Err(ValueError::MalformedInt));
    assert_eq!(inst.make_int_decimal("0x1f"), Err(ValueError::MalformedInt));
    assert_eq!(inst.make_int_decimal(""), Err(ValueError::MalformedInt));
}

#[test]
fn make_float_canonicalizes_nan_and_passes_infinities_through() {
    let mut inst = instance();
    let nan = float(&mut inst, f64::NAN);
    assert_eq!(
        inst.as_float(nan).unwrap(),
        CANONICAL_NAN_BITS
    );
    // A NaN with a different payload/sign is canonicalized to the same pattern.
    let other_nan = float(&mut inst, f64::from_bits(0xFFF8_0000_0000_0001));
    assert_eq!(
        inst.as_float(other_nan).unwrap(),
        CANONICAL_NAN_BITS
    );
    // ±∞ is inert data: stored, not canonicalized away.
    let inf = float(&mut inst, f64::INFINITY);
    assert_eq!(float_of(&inst, inf), f64::INFINITY);
    let neg_inf = float(&mut inst, f64::NEG_INFINITY);
    assert_eq!(float_of(&inst, neg_inf), f64::NEG_INFINITY);
    // -0.0 is preserved bit for bit: it equals 0.0, but only NaN is canonicalized, so the
    // sign bit survives.
    let neg_zero = float(&mut inst, -0.0);
    assert_eq!(
        inst.as_float(neg_zero).unwrap(),
        (-0.0f64).to_bits()
    );
}

#[test]
fn make_string_validates_utf8_and_normalizes_to_nfc() {
    let mut inst = instance();
    let composed = "caf\u{e9}"; // "café" with a precomposed é (NFC)
    let decomposed = "cafe\u{301}"; // e + combining acute (NFD)
    // Non-NFC input is normalized; string_bytes round-trips to the NFC form.
    let h = inst.make_string(decomposed.as_bytes()).unwrap();
    assert_eq!(inst.kind_of(h), Ok(Kind::String));
    assert_eq!(inst.string_bytes(h), Ok(composed.as_bytes()));
    // Already-NFC input round-trips unchanged.
    let h2 = inst.make_string(composed.as_bytes()).unwrap();
    assert_eq!(inst.string_bytes(h2), Ok(composed.as_bytes()));
}

#[test]
fn make_string_rejects_invalid_utf8() {
    let mut inst = instance();
    // The error carries the byte offset of the first invalid sequence, the same position
    // that `decode` names.
    assert_eq!(
        inst.make_string(&[0x61, 0xff, 0xfe]),
        Err(ValueError::InvalidUtf8 { position: 1 })
    );
}

#[test]
fn bytes_are_raw_and_uninterpreted() {
    let mut inst = instance();
    let h = inst.make_bytes(&[0xff, 0x00, 0x80]);
    assert_eq!(inst.kind_of(h), Ok(Kind::Bytes));
    assert_eq!(inst.as_bytes(h), Ok(&[0xff, 0x00, 0x80][..]));
}

#[test]
fn nil_reads_as_nil() {
    let mut inst = instance();
    let h = inst.make_nil();
    assert_eq!(inst.kind_of(h), Ok(Kind::Nil));
    assert_eq!(inst.is_nil(h), Ok(true));
}

#[test]
fn a_list_is_built_and_read_back() {
    let mut inst = instance();
    let list = inst.make_list();
    assert_eq!(inst.list_length(list), Ok(0));
    let a = inst.make_int(10);
    let b = inst.make_int(20);
    inst.list_append(list, a).unwrap();
    inst.list_append(list, b).unwrap();
    assert_eq!(inst.list_length(list), Ok(2));
    let got0 = inst.list_get(list, 0).unwrap();
    let got1 = inst.list_get(list, 1).unwrap();
    assert_eq!(inst.as_int(got0), Ok(10));
    assert_eq!(inst.as_int(got1), Ok(20));
    assert_eq!(inst.list_get(list, 2), Err(ValueError::IndexOutOfBounds));
}

#[test]
fn list_append_onto_a_non_list_reports_wrong_kind() {
    let mut inst = instance();
    let notlist = inst.make_int(1);
    let v = inst.make_int(2);
    assert_eq!(
        inst.list_append(notlist, v),
        Err(ValueError::WrongKind {
            expected: Kind::List,
            got: Kind::Int,
        })
    );
}

#[test]
fn a_released_handle_reads_as_stale() {
    let mut inst = instance();
    let h = inst.make_int(7); // refs = 1
    inst.release(h).unwrap(); // refs = 0 → freed
    assert_eq!(inst.kind_of(h), Err(ValueError::Stale));
    assert_eq!(inst.as_int(h), Err(ValueError::Stale));
}

#[test]
fn a_constructed_value_survives_collection_while_held() {
    let mut inst = instance();
    let h = inst.make_string("hello".as_bytes()).unwrap();
    inst.force_collect(); // the handle roots the string
    assert_eq!(inst.string_bytes(h), Ok("hello".as_bytes()));
}

// Foreign objects. The host is told which finalizers to run, and counts them.

fn runs(done: &[Finalization], finalizer: u64) -> usize {
    done.iter().filter(|f| f.finalizer == finalizer).count()
}

#[test]
fn tag_and_ptr_round_trip_and_report_foreign_kind() {
    let mut inst = instance();
    let h = inst.make_foreign(42, 99, None);
    assert_eq!(inst.kind_of(h), Ok(Kind::Foreign));
    assert_eq!(inst.foreign_tag(h), Ok(42));
    assert_eq!(inst.foreign_ptr(h), Ok(99));
}

#[test]
fn a_foreign_reader_on_a_non_foreign_reports_wrong_kind() {
    let mut inst = instance();
    let i = inst.make_int(1);
    assert_eq!(
        inst.foreign_tag(i),
        Err(ValueError::WrongKind {
            expected: Kind::Foreign,
            got: Kind::Int,
        })
    );
}

#[test]
fn an_unreachable_foreign_runs_its_finalizer_once_at_gc() {
    let mut inst = instance();
    let h = inst.make_foreign(1, 77, Some(5));
    inst.release(h).unwrap();
    inst.force_collect();
    let done = inst.take_finalizations();
    assert_eq!(runs(&done, 5), 1, "once at the collection");
    assert_eq!(done[0].ptr, 77, "with the host's token");
    inst.force_collect();
    assert_eq!(runs(&inst.take_finalizations(), 5), 0, "not again by a later collection");
}

#[test]
fn a_retained_foreign_is_not_finalized_at_gc() {
    let mut inst = instance();
    let _h = inst.make_foreign(1, 0, Some(5));
    inst.force_collect();
    assert_eq!(runs(&inst.take_finalizations(), 5), 0, "a reachable object is not finalized");
}

#[test]
fn destroy_finalizes_every_live_foreign_once() {
    let mut inst = instance();
    let _a = inst.make_foreign(1, 10, Some(5));
    let _b = inst.make_foreign(2, 20, Some(6));
    let done = inst.destroy();
    assert_eq!(runs(&done, 5) + runs(&done, 6), 2, "both, once each");
    assert_eq!(done.len(), 2);
}

#[test]
fn a_gc_finalized_foreign_is_not_finalized_again_at_destroy() {
    let mut inst = instance();
    let h = inst.make_foreign(1, 0, Some(5));
    inst.release(h).unwrap();
    inst.force_collect();
    assert_eq!(runs(&inst.take_finalizations(), 5), 1, "at the collection");
    assert_eq!(runs(&inst.destroy(), 5), 0, "not again at the end");
}

#[test]
fn a_foreign_without_a_finalizer_is_inert_at_gc_and_destroy() {
    let mut inst = instance();
    let h = inst.make_foreign(1, 0, None);
    inst.release(h).unwrap();
    inst.force_collect();
    assert!(inst.take_finalizations().is_empty());
    let _live = inst.make_foreign(2, 0, None);
    assert!(inst.destroy().is_empty());
}

#[test]
fn a_finalizer_runs_once_over_any_run_of_releases_and_collections() {
    let mut inst = instance();
    let a = inst.make_foreign(1, 10, Some(5));
    let b = inst.make_foreign(2, 20, Some(6));
    inst.retain(a).unwrap();
    let mut done = Vec::new();
    inst.force_collect();
    done.extend(inst.take_finalizations());
    inst.release(a).unwrap();
    inst.force_collect();
    done.extend(inst.take_finalizations());
    assert!(done.is_empty(), "both are still held");
    inst.release(a).unwrap();
    inst.force_collect();
    inst.force_collect();
    done.extend(inst.take_finalizations());
    assert_eq!(runs(&done, 5), 1);
    assert_eq!(runs(&done, 6), 0);
    inst.release(b).unwrap();
    done.extend(inst.destroy());
    assert_eq!(done, vec![
        Finalization { finalizer: 5, ptr: 10 },
        Finalization { finalizer: 6, ptr: 20 },
    ]);
}
