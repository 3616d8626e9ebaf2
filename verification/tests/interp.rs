//! End-to-end tests: source text through the parser and the evaluator.

use minilang::ast::{Builtin, Value};
use minilang::fmt::Printable;
use minilang::parser::parse;
use minilang::runtime::Runtime;

fn parsed(src: &[u8]) -> minilang::ast::Program {
    match parse(&src.to_vec()) {
        Ok(p) => p,
        Err(e) => panic!("parse failed at {}", e.pos),
    }
}

fn run_src(src: &[u8]) -> Value {
    let mut rt = Runtime::new();
    rt.run(parsed(src))
}

fn num(v: &Value) -> i64 {
    match v {
        Value::Number(n) => *n,
        _ => panic!("not a number"),
    }
}

fn text(v: &Value) -> Vec<u8> {
    match v {
        Value::String(s) => s.clone(),
        _ => panic!("not a string"),
    }
}

fn elems(v: &Value) -> &Vec<Value> {
    match v {
        Value::Array(a) => &a.elements,
        _ => panic!("not an array"),
    }
}

#[test]
fn precedence_mul_before_add() {
    assert_eq!(num(&run_src(b"let x = 1 + 2 * 3")), 7);
}

#[test]
fn precedence_more() {
    assert_eq!(num(&run_src(b"2 * 3 + 4 * 5")), 26);
    assert_eq!(num(&run_src(b"(1 + 2) * 3")), 9);
    assert_eq!(num(&run_src(b"10 - 3 - 2")), 5);
}

#[test]
fn split_string() {
    let v = run_src(b"let s = \"a,b,c\" $ \",\"");
    let es = elems(&v);
    assert_eq!(es.len(), 3);
    assert_eq!(text(&es[0]), b"a".to_vec());
    assert_eq!(text(&es[1]), b"b".to_vec());
    assert_eq!(text(&es[2]), b"c".to_vec());
}

#[test]
fn recursion_via_hoisting() {
    let v = run_src(b"fn f(n) { if n <= 1 { 1 } else { n * f(n - 1) } }  f(5)");
    assert_eq!(num(&v), 120);
}

#[test]
fn table_dot_index() {
    assert_eq!(num(&run_src(b"let t = #{ a: 1, b: 2 }  t.a + t.b")), 3);
}

#[test]
fn negative_index() {
    assert_eq!(num(&run_src(b"let a = [10, 20, 30]  a[-1]")), 30);
}

#[test]
fn match_picks_first_equal_case() {
    let v = run_src(b"match 2 { 1 => \"one\"; 2, 3 => \"small\"; _ => \"big\" }");
    assert_eq!(text(&v), b"small".to_vec());
}

#[test]
fn match_fallback() {
    let v = run_src(b"match 9 { 1 => \"one\"; 2, 3 => \"small\"; _ => \"big\" }");
    assert_eq!(text(&v), b"big".to_vec());
}

#[test]
fn exclusive_range_drops_upper() {
    let v = run_src(b"let xs = [1,2,3,4]  xs[1..3]");
    let es = elems(&v);
    assert_eq!(es.len(), 2);
    assert_eq!(num(&es[0]), 2);
    assert_eq!(num(&es[1]), 3);
}

#[test]
fn bare_assignment_writes_global() {
    assert_eq!(num(&run_src(b"let g = 0   fn inc() { g = g + 1 }   inc() inc() g")), 2);
}

#[test]
fn range_indexing_round_trip() {
    let v = run_src(b"let a = [1, 2, 3]  a[0..=2]");
    let es = elems(&v);
    assert_eq!(es.len(), 3);
    assert_eq!(num(&es[0]), 1);
    assert_eq!(num(&es[1]), 2);
    assert_eq!(num(&es[2]), 3);
}

#[test]
fn empty_block_is_nil() {
    assert!(matches!(run_src(b"{ }"), Value::Nil));
}

#[test]
fn empty_program_is_nil() {
    assert!(matches!(run_src(b""), Value::Nil));
}

#[test]
fn block_value_is_last_statement() {
    assert_eq!(num(&run_src(b"{ 1 2 3 }")), 3);
}

#[test]
fn hoisting_inside_block() {
    assert_eq!(num(&run_src(b"{ g() fn g() { 42 } }")), 42);
}

#[test]
fn value_semantic_copy() {
    assert_eq!(num(&run_src(b"fn keep(v) { kept = v }  let x = 10  keep(x)  x = 20  kept")), 10);
}

#[test]
fn join_array() {
    let v = run_src(b"[\"a\", \"b\"] $ \"-\"");
    assert_eq!(text(&v), b"a-b".to_vec());
}

#[test]
fn join_formats_numbers() {
    let v = run_src(b"[1, 2] $ \",\"");
    assert_eq!(text(&v), b"1,2".to_vec());
}

#[test]
fn split_at_empty_separator() {
    // every byte on its own, with an empty piece at each end
    let v = run_src(b"\"ab\" $ \"\"");
    let es = elems(&v);
    assert_eq!(es.len(), 4);
    assert_eq!(text(&es[0]), b"".to_vec());
    assert_eq!(text(&es[1]), b"a".to_vec());
    assert_eq!(text(&es[2]), b"b".to_vec());
    assert_eq!(text(&es[3]), b"".to_vec());

    let v = run_src(b"\"\" $ \"\"");
    assert_eq!(elems(&v).len(), 2);
}

#[test]
fn split_once_at_empty_separator() {
    let v = run_src(b"\"ab\" $$ \"\"");
    let es = elems(&v);
    assert_eq!(es.len(), 2);
    assert_eq!(text(&es[0]), b"".to_vec());
    assert_eq!(text(&es[1]), b"ab".to_vec());
}

#[test]
fn split_once() {
    let v = run_src(b"\"a,b,c\" $$ \",\"");
    let es = elems(&v);
    assert_eq!(es.len(), 2);
    assert_eq!(text(&es[0]), b"a".to_vec());
    assert_eq!(text(&es[1]), b"b,c".to_vec());
}

#[test]
fn double_dollar_array() {
    let v = run_src(b"[\"a\", \"b\", \"c\"] $$ \"-\"");
    let es = elems(&v);
    assert_eq!(es.len(), 2);
    assert_eq!(text(&es[0]), b"a-b".to_vec());
    assert_eq!(text(&es[1]), b"c".to_vec());
}

#[test]
fn equality_rules() {
    assert!(matches!(run_src(b"1 == 1"), Value::Boolean(true)));
    assert!(matches!(run_src(b"1 == 2"), Value::Boolean(false)));
    assert!(matches!(run_src(b"\"a\" == \"a\""), Value::Boolean(true)));
    assert!(matches!(run_src(b"nil == nil"), Value::Boolean(true)));
    // booleans fall through the equality table: always unequal
    assert!(matches!(run_src(b"true == true"), Value::Boolean(false)));
    assert!(matches!(run_src(b"1 != 2"), Value::Boolean(true)));
}

#[test]
fn logic_is_eager_and_strict() {
    assert!(matches!(run_src(b"true and false"), Value::Boolean(false)));
    assert!(matches!(run_src(b"true or false"), Value::Boolean(true)));
    assert!(matches!(run_src(b"1 and true"), Value::Nil));
    assert!(matches!(run_src(b"!true"), Value::Boolean(false)));
    // anything but a boolean is falsy
    assert!(matches!(run_src(b"!5"), Value::Boolean(true)));
}

#[test]
fn comparison_mismatch_is_nil() {
    assert!(matches!(run_src(b"\"a\" > \"b\""), Value::Nil));
    assert!(matches!(run_src(b"\"a\" >= \"b\""), Value::Nil));
    assert!(matches!(run_src(b"1 < 2"), Value::Boolean(true)));
    assert!(matches!(run_src(b"1 >= 2"), Value::Boolean(false)));
}

#[test]
fn division() {
    assert_eq!(num(&run_src(b"7 / 2")), 3);
    assert_eq!(num(&run_src(b"0 - 7 / 2")), -3);
    assert!(matches!(run_src(b"5 / 0"), Value::Nil));
}

#[test]
fn arithmetic_type_mismatch_is_nil() {
    assert!(matches!(run_src(b"1 + true"), Value::Nil));
    assert!(matches!(run_src(b"\"a\" - 1"), Value::Nil));
}

#[test]
fn string_concat_and_array_push() {
    assert_eq!(text(&run_src(b"\"a\" + \"b\"")), b"ab".to_vec());
    let v = run_src(b"[1] + 2");
    let es = elems(&v);
    assert_eq!(es.len(), 2);
    assert_eq!(num(&es[1]), 2);
}

#[test]
fn index_by_numeric_string() {
    assert_eq!(num(&run_src(b"[10, 20][\"1\"]")), 20);
    assert!(matches!(run_src(b"[10, 20][\"x\"]"), Value::Nil));
}

#[test]
fn index_out_of_range_is_nil() {
    assert!(matches!(run_src(b"[10, 20][5]"), Value::Nil));
    assert!(matches!(run_src(b"5[0]"), Value::Nil));
}

#[test]
fn table_reflection() {
    let keys = run_src(b"let t = #{ a: 1, b: 2 }  #t");
    let ks = elems(&keys);
    assert_eq!(ks.len(), 2);
    assert_eq!(text(&ks[0]), b"a".to_vec());
    assert_eq!(text(&ks[1]), b"b".to_vec());

    let vals = run_src(b"let t = #{ a: 1, b: 2 }  ##t");
    let vs = elems(&vals);
    assert_eq!(num(&vs[0]), 1);
    assert_eq!(num(&vs[1]), 2);

    let entries = run_src(b"let t = #{ a: 1 }  ###t");
    let es = elems(&entries);
    assert_eq!(es.len(), 1);
    let pair = elems(&es[0]);
    assert_eq!(text(&pair[0]), b"a".to_vec());
    assert_eq!(num(&pair[1]), 1);
}

#[test]
fn table_duplicate_key_last_wins() {
    assert_eq!(num(&run_src(b"let t = #{ a: 1, a: 5 }  t.a")), 5);
    let keys = run_src(b"let t = #{ a: 1, a: 5 }  #t");
    assert_eq!(elems(&keys).len(), 1);
}

#[test]
fn while_loop() {
    assert_eq!(num(&run_src(b"let i = 0 while i < 3 { i = i + 1 } i")), 3);
}

#[test]
fn while_value_is_last_body_value() {
    assert_eq!(num(&run_src(b"let i = 0 while i < 3 { i = i + 1 }")), 3);
    assert!(matches!(run_src(b"while false 1"), Value::Nil));
}

#[test]
fn for_loop() {
    assert_eq!(
        num(&run_src(b"let s = 0 for let i = 0; i < 4; i = i + 1 { s = s + i } s")),
        6
    );
    assert!(matches!(run_src(b"for let i = 0; i < 4; i = i + 1 { i }"), Value::Nil));
}

#[test]
fn if_elif_else() {
    assert_eq!(num(&run_src(b"if false 1 elif true 2 else 3")), 2);
    assert_eq!(num(&run_src(b"if false 1 elif false 2 else 3")), 3);
    assert!(matches!(run_src(b"if false 1"), Value::Nil));
}

#[test]
fn closure_literal() {
    assert_eq!(num(&run_src(b"let f = |x| x + 1  f(2)")), 3);
    assert_eq!(num(&run_src(b"let f = |a, b| a * b  f(3, 4)")), 12);
}

#[test]
fn call_arity_mismatch() {
    // missing arguments become nil; extras are ignored
    assert!(matches!(run_src(b"let f = |a, b| b  f(1)"), Value::Nil));
    assert_eq!(num(&run_src(b"let f = |a| a  f(1, 2)")), 1);
}

#[test]
fn call_of_missing_or_noncallable_is_nil() {
    assert!(matches!(run_src(b"nosuch(1)"), Value::Nil));
    assert!(matches!(run_src(b"let x = 5  x(1)"), Value::Nil));
}

#[test]
fn unknown_identifier_is_nil() {
    assert!(matches!(run_src(b"nosuch"), Value::Nil));
}

#[test]
fn increment_decrement() {
    assert_eq!(num(&run_src(b"let x = 1  x += 4  x")), 5);
    assert_eq!(num(&run_src(b"let x = 9  x -= 4  x")), 5);
}

#[test]
fn print_postfix_appends_output() {
    let mut rt = Runtime::new();
    let v = rt.run(parsed(b"\"hi\"!"));
    assert_eq!(text(&v), b"hi".to_vec());
    assert_eq!(rt.output, b"hi\n".to_vec());
}

#[test]
fn debug_postfix_appends_output() {
    let mut rt = Runtime::new();
    let v = rt.run(parsed(b"5?"));
    assert_eq!(num(&v), 5);
    assert_eq!(rt.output, b"5\n".to_vec());
}

#[test]
fn native_print() {
    let mut rt = Runtime::new();
    rt.register_fn(&b"print".to_vec(), Builtin::Print);
    let v = rt.run(parsed(b"print(\"yo\")"));
    assert!(matches!(v, Value::Nil));
    assert_eq!(rt.output, b"yo".to_vec());
}

#[test]
fn globals_persist_across_runs() {
    let mut rt = Runtime::new();
    rt.run(parsed(b"g = 5"));
    let v = rt.run(parsed(b"g"));
    assert_eq!(num(&v), 5);
}

#[test]
fn scope_stack_is_balanced_after_run() {
    let mut rt = Runtime::new();
    assert_eq!(rt.storage.scopes.len(), 1);
    rt.run(parsed(b"let x = 1 { let y = 2 { y } } if true { 3 } while false 1"));
    assert_eq!(rt.storage.scopes.len(), 1);
}

#[test]
fn parse_is_deterministic() {
    let src = b"let x = 1 + 2 * 3  fn f(n) { n }  f(x)!";
    let a = parsed(src);
    let b = parsed(src);
    assert_eq!(a.statements.len(), b.statements.len());
    assert_eq!(a.functions.len(), b.functions.len());
    let mut rt1 = Runtime::new();
    let mut rt2 = Runtime::new();
    let v1 = rt1.run(a);
    let v2 = rt2.run(b);
    assert_eq!(num(&v1), num(&v2));
    assert_eq!(rt1.output, rt2.output);
}

#[test]
fn parse_errors() {
    assert!(parse(&b"let".to_vec()).is_err());
    assert!(parse(&b"1 +".to_vec()).is_err());
    assert!(parse(&b"\"unterminated".to_vec()).is_err());
    assert!(parse(&b"@".to_vec()).is_err());
    assert!(parse(&b"99999999999999999999".to_vec()).is_err());
    assert!(parse(&b"match 1 { 2 }".to_vec()).is_err());
}

#[test]
fn negation_and_ranges() {
    assert_eq!(num(&run_src(b"-5")), -5);
    assert!(matches!(run_src(b"let r = 1..3 r"), Value::ExclusiveRange(1, 3)));
    assert!(matches!(run_src(b"let r = 1..=3 r"), Value::InclusiveRange(1, 3)));
    assert!(matches!(run_src(b"-true"), Value::Nil));
}

#[test]
fn formatter() {
    assert_eq!(run_src(b"[1, true, nil]").fmt_print(), b"[1, true, nil]".to_vec());
    assert_eq!(run_src(b"\"raw\"").fmt_print(), b"raw".to_vec());
    assert_eq!(run_src(b"0 - 12").fmt_print(), b"-12".to_vec());
    assert_eq!(run_src(b"1..=2").fmt_print(), b"1..=2".to_vec());
    assert_eq!(run_src(b"#{ a: 1 }").fmt_print(), b"#{a: 1}".to_vec());
    assert_eq!(run_src(b"|x, y| x").fmt_print(), b"|x, y| { ... }".to_vec());
    assert_eq!(run_src(b"[1]").fmt_debug(), b"[1]".to_vec());
}

#[test]
fn overflow_is_nil() {
    assert!(matches!(
        run_src(b"9223372036854775807 + 1"),
        Value::Nil
    ));
    assert!(matches!(
        run_src(b"9223372036854775807 * 2"),
        Value::Nil
    ));
}

#[test]
fn block_as_expression_in_arithmetic() {
    assert_eq!(num(&run_src(b"1 + { 2 3 }")), 4);
}

#[test]
fn closures_resolve_names_at_the_call_site() {
    // a script closure does not capture: free names resolve against the
    // caller's scopes
    assert_eq!(num(&run_src(b"fn f() { y }  { let y = 7 f() }")), 7);
}

#[test]
fn exclusive_range_upper_bound_wraps_through_zero() {
    // the upper bound of `0..0` normalises to -1, which wraps to the end
    let v = run_src(b"[1, 2, 3][0..0]");
    assert_eq!(elems(&v).len(), 3);
}

#[test]
fn backwards_range_slice_is_nil() {
    assert!(matches!(run_src(b"[1, 2, 3][2..1]"), Value::Nil));
}

#[test]
fn shadowing_inside_block() {
    assert_eq!(num(&run_src(b"let x = 1 { let x = 2 x }")), 2);
    assert_eq!(num(&run_src(b"let x = 1 { let x = 2 } x")), 1);
}
