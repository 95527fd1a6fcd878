use axiomc::codegen::render_rust;
use axiomc::hir;
use axiomc::mir;
use axiomc::syntax::parse_program;
use axiomc::syntax::{CompareOp, Expr, Literal, Stmt, TypeName};

#[test]
fn parser_lowers_functions_calls_and_while() {
    let source = "fn banner(name: string): string {\nreturn \"hello \" + name\n}\n\nfn lucky(base: int): int {\nreturn base + 2\n}\n\nfn is_ready(value: int): bool {\nreturn value == 42\n}\n\nlet answer: int = lucky(40)\nlet ready: bool = is_ready(answer)\nwhile false {\nprint \"never\"\n}\nif ready {\nprint banner(\"from stage1\")\n} else {\nprint \"bad\"\n}\nprint answer\nprint ready\n";
    let parsed = parse_program(source, "main.ax").expect("parse");
    assert_eq!(parsed.functions.len(), 3);
    let hir = hir::lower(&parsed).expect("lower");
    let mir = mir::lower(&hir);
    assert_eq!(mir.functions.len(), 3);
    assert_eq!(mir.statement_count(), 11);
    let rendered = render_rust(&mir);
    assert!(rendered.contains("fn banner(name: String) -> String {"));
    assert!(rendered.contains("return format!(\"{}{}\", String::from(\"hello \"), name);"));
    assert!(rendered.contains("let answer: i64 = lucky(40);"));
    assert!(rendered.contains("let ready: bool = is_ready(answer);"));
    assert!(rendered.contains("while false {"));
    assert!(rendered.contains("if ready {"));
    assert!(rendered.contains("println!(\"{}\", banner(String::from(\"from stage1\")));"));
    assert!(rendered.contains("println!(\"{}\", ready);"));
}

#[test]
fn parser_lowers_struct_literals_and_field_access() {
    let source = "struct BuildInfo {\nname: string\ncount: int\n}\n\nfn count_of(info: BuildInfo): int {\nreturn info.count\n}\n\nlet info: BuildInfo = BuildInfo { name: \"stage1\", count: 42 }\nprint count_of(info)\n";
    let parsed = parse_program(source, "main.ax").expect("parse");
    assert_eq!(parsed.structs.len(), 1);
    let hir = hir::lower(&parsed).expect("lower");
    assert_eq!(hir.structs.len(), 1);
    let mir = mir::lower(&hir);
    let rendered = render_rust(&mir);
    assert!(rendered.contains("struct BuildInfo {"));
    assert!(rendered.contains("name: String,"));
    assert!(rendered.contains("count: i64,"));
    assert!(rendered.contains(
        "let info: BuildInfo = BuildInfo { name: String::from(\"stage1\"), count: 42 };"
    ));
    assert!(rendered.contains("return (info).count;"));
}

#[test]
fn parser_lowers_arrays_and_indexing() {
    let source = "fn answer(values: [int]): int {\nreturn values[1]\n}\n\nlet values: [int] = [40, 42]\nprint answer(values)\n";
    let parsed = parse_program(source, "main.ax").expect("parse");
    let hir = hir::lower(&parsed).expect("lower");
    let mir = mir::lower(&hir);
    let rendered = render_rust(&mir);
    assert!(rendered.contains("fn answer(values: Vec<i64>) -> i64 {"));
    assert!(rendered.contains("return axiom_array_get(&values, 1);"));
    assert!(rendered.contains("let values: Vec<i64> = vec![40, 42];"));
    assert!(rendered.contains("println!(\"{}\", answer(values));"));
}

#[test]
fn parser_lowers_array_slices() {
    let source = "fn tail(values: &[int]): &[int] {\nreturn values[1:]\n}\n\nfn string_tail_len(values: &[string]): int {\nlet rest: &[string] = values[1:]\nreturn len(rest)\n}\n\nlet values: [int] = [3, 7, 9, 11]\nlet window: &[int] = tail(values[:])\nprint first(window)\nprint last(window)\nprint len(window)\nlet labels: [string] = [\"build\", \"test\", \"ship\"]\nprint string_tail_len(labels[:])\nlet words: [string] = [\"alpha\", \"beta\"]\nprint first(words)\n";
    let parsed = parse_program(source, "main.ax").expect("parse");
    let hir = hir::lower(&parsed).expect("lower");
    let mir = mir::lower(&hir);
    let rendered = render_rust(&mir);
    assert!(rendered.contains("fn tail<'a>(values: &'a [i64]) -> &'a [i64] {"));
    assert!(rendered.contains("return axiom_slice_view(values, Some(1), None);"));
    assert!(rendered.contains("fn string_tail_len<'a>(values: &'a [String]) -> i64 {"));
    assert!(
        rendered.contains("let window: &[i64] = tail(axiom_slice_view(&values, None, None));")
    );
    assert!(
        rendered
            .contains(
                "println!(\"{}\", { let values = window; let index = 0; axiom_array_get(values, index) });"
            )
    );
    assert!(
        rendered.contains(
            "println!(\"{}\", { let values = window; let index = axiom_last_index(values.len()); axiom_array_get(values, index) });"
        )
    );
    assert!(rendered.contains("return (rest).len() as i64;"));
    assert!(
        rendered
            .contains(
                "println!(\"{}\", { let values = words; let index = 0; axiom_array_take(values, index) });"
            )
    );
}

#[test]
fn parser_lowers_borrowed_structs_and_enums() {
    let source = "struct Window {\nview: &[int]\n}\n\nenum Snapshot {\nWindow(Window)\nNamed { window: Window }\n}\n\nfn tail(values: &[int]): Window {\nreturn Window { view: values[1:] }\n}\n\nfn read(snapshot: Snapshot): int {\nmatch snapshot {\nWindow(window) {\nreturn first(window.view)\n}\nNamed { window } {\nreturn last(window.view)\n}\n}\n}\n\nlet numbers: [int] = [3, 7, 9, 11]\nlet window: Window = tail(numbers[:])\nprint first(window.view)\nprint read(Named { window: tail(numbers[:]) })\n";
    let parsed = parse_program(source, "main.ax").expect("parse");
    let hir = hir::lower(&parsed).expect("lower");
    let mir = mir::lower(&hir);
    let rendered = render_rust(&mir);
    assert!(rendered.contains("struct Window<'a> {"));
    assert!(rendered.contains("view: &'a [i64],"));
    assert!(rendered.contains("enum Snapshot<'a> {"));
    assert!(rendered.contains("Window(Window<'a>),"));
    assert!(rendered.contains("window: Window<'a>,"));
    assert!(rendered.contains("fn tail<'a>(values: &'a [i64]) -> Window<'a> {"));
    assert!(rendered.contains("fn read<'a>(snapshot: Snapshot<'a>) -> i64 {"));
    assert!(
        rendered
            .contains("let window: Window<'_> = tail(axiom_slice_view(&numbers, None, None));")
    );
    assert!(
        rendered.contains(
            "println!(\"{}\", read(Snapshot::Named { window: tail(axiom_slice_view(&numbers, None, None)) }));"
        )
    );
}

#[test]
fn parser_lowers_tuples_and_tuple_indexing() {
    let source = "fn label(pair: (int, string)): string {\nreturn pair.1\n}\n\nlet pair: (int, string) = (7, \"stage1 tuples\")\nprint pair.0\nprint label(pair)\n";
    let parsed = parse_program(source, "main.ax").expect("parse");
    let hir = hir::lower(&parsed).expect("lower");
    let mir = mir::lower(&hir);
    let rendered = render_rust(&mir);
    assert!(rendered.contains("fn label(pair: (i64, String)) -> String {"));
    assert!(rendered.contains("return (pair).1;"));
    assert!(
        rendered.contains("let pair: (i64, String) = (7, String::from(\"stage1 tuples\"));")
    );
    assert!(rendered.contains("println!(\"{}\", (pair).0);"));
    assert!(rendered.contains("println!(\"{}\", label(pair));"));
}

#[test]
fn parser_lowers_maps_and_indexing() {
    let source =
        "let scores: {string: int} = {\"build\": 7, \"deploy\": 9}\nprint scores[\"deploy\"]\n";
    let parsed = parse_program(source, "main.ax").expect("parse");
    let hir = hir::lower(&parsed).expect("lower");
    let mir = mir::lower(&hir);
    let rendered = render_rust(&mir);
    assert!(rendered.contains("let scores: HashMap<String, i64> = HashMap::from(["));
    assert!(rendered.contains("(String::from(\"build\"), 7)"));
    assert!(rendered.contains("(String::from(\"deploy\"), 9)"));
    assert!(
        rendered
            .contains("println!(\"{}\", axiom_map_get(&scores, &String::from(\"deploy\")));")
    );
}

#[test]
fn parser_lowers_option_and_result() {
    let source = "struct BuildInfo {\nlabel: string\n}\n\nfn maybe(ready: bool): Option<BuildInfo> {\nif ready {\nreturn Some(BuildInfo { label: \"ok\" })\n}\nreturn None\n}\n\nfn load(ready: bool): Result<BuildInfo, string> {\nif ready {\nreturn Ok(BuildInfo { label: \"built\" })\n}\nreturn Err(\"boom\")\n}\n\nfn describe(value: Option<BuildInfo>): string {\nmatch value {\nSome(info) {\nreturn info.label\n}\nNone {\nreturn \"none\"\n}\n}\n}\n\nfn render(result: Result<BuildInfo, string>): string {\nmatch result {\nOk(info) {\nreturn info.label\n}\nErr(message) {\nreturn message\n}\n}\n}\n\nprint describe(maybe(true))\nprint render(load(false))\n";
    let parsed = parse_program(source, "main.ax").expect("parse");
    let hir = hir::lower(&parsed).expect("lower");
    let mir = mir::lower(&hir);
    let rendered = render_rust(&mir);
    assert!(rendered.contains("fn maybe(ready: bool) -> Option<BuildInfo> {"));
    assert!(
        rendered.contains("return Option::Some(BuildInfo { label: String::from(\"ok\") });")
    );
    assert!(rendered.contains("return Option::None;"));
    assert!(rendered.contains("fn load(ready: bool) -> Result<BuildInfo, String> {"));
    assert!(
        rendered.contains("return Result::Ok(BuildInfo { label: String::from(\"built\") });")
    );
    assert!(rendered.contains("return Result::Err(String::from(\"boom\"));"));
    assert!(rendered.contains("Option::Some(info) => {"));
    assert!(rendered.contains("Option::None => {"));
    assert!(rendered.contains("Result::Ok(info) => {"));
    assert!(rendered.contains("Result::Err(message) => {"));
}

#[test]
fn parser_lowers_enums_and_match() {
    let source = "enum Status {\nReady\nFailed\n}\n\nfn label(status: Status): string {\nmatch status {\nReady {\nreturn \"ready\"\n}\nFailed {\nreturn \"failed\"\n}\n}\n}\n\nlet status: Status = Ready\nprint label(status)\n";
    let parsed = parse_program(source, "main.ax").expect("parse");
    assert_eq!(parsed.enums.len(), 1);
    let hir = hir::lower(&parsed).expect("lower");
    assert_eq!(hir.enums.len(), 1);
    let mir = mir::lower(&hir);
    let rendered = render_rust(&mir);
    assert!(rendered.contains("enum Status {"));
    assert!(rendered.contains("Ready,"));
    assert!(rendered.contains("Failed,"));
    assert!(rendered.contains("match status {"));
    assert!(rendered.contains("Status::Ready => {"));
    assert!(rendered.contains("Status::Failed => {"));
    assert!(rendered.contains("let status: Status = Status::Ready;"));
}

#[test]
fn parser_lowers_payload_enums_and_match_bindings() {
    let source = "enum Message {\nText(string)\nCount(int)\n}\n\nfn render(message: Message): string {\nmatch message {\nText(text) {\nreturn text\n}\nCount(count) {\nreturn \"count\"\n}\n}\n}\n\nlet message: Message = Text(\"ready\")\nprint render(message)\n";
    let parsed = parse_program(source, "main.ax").expect("parse");
    assert_eq!(
        parsed.enums[0].variants[0].payload_tys,
        vec![axiomc::syntax::TypeName::String]
    );
    let axiomc::syntax::Stmt::Match { arms, .. } = &parsed.functions[0].body[0] else {
        panic!("expected match statement");
    };
    assert_eq!(arms[0].variant, "Text");
    assert_eq!(arms[0].bindings, vec![String::from("text")]);
    assert_eq!(arms[1].variant, "Count");
    assert_eq!(arms[1].bindings, vec![String::from("count")]);
    let hir = hir::lower(&parsed).expect("lower");
    let mir = mir::lower(&hir);
    let rendered = render_rust(&mir);
    assert!(rendered.contains("Text(String),"));
    assert!(rendered.contains("Count(i64),"));
    assert!(rendered.contains("Message::Text(text) => {"));
    assert!(
        rendered.contains("let message: Message = Message::Text(String::from(\"ready\"));")
    );
}

#[test]
fn parser_lowers_multi_payload_enums_and_match_bindings() {
    let source = "enum Message {\nPair(int, string)\nText(string)\n}\n\nfn render(message: Message): string {\nmatch message {\nPair(count, label) {\nprint count\nreturn label\n}\nText(text) {\nreturn text\n}\n}\n}\n\nlet message: Message = Pair(7, \"tuple payload\")\nprint render(message)\n";
    let parsed = parse_program(source, "main.ax").expect("parse");
    assert_eq!(
        parsed.enums[0].variants[0].payload_tys,
        vec![
            axiomc::syntax::TypeName::Int,
            axiomc::syntax::TypeName::String
        ]
    );
    let axiomc::syntax::Stmt::Match { arms, .. } = &parsed.functions[0].body[0] else {
        panic!("expected match statement");
    };
    assert_eq!(
        arms[0].bindings,
        vec![String::from("count"), String::from("label")]
    );
    let hir = hir::lower(&parsed).expect("lower");
    let mir = mir::lower(&hir);
    let rendered = render_rust(&mir);
    assert!(rendered.contains("Pair(i64, String),"));
    assert!(rendered.contains("Message::Pair(count, label) => {"));
    assert!(
        rendered.contains(
            "let message: Message = Message::Pair(7, String::from(\"tuple payload\"));"
        )
    );
}

#[test]
fn parser_lowers_named_payload_enums_and_match_bindings() {
    let source = "enum Message {\nJob { id: int, label: string }\nText(string)\n}\n\nfn render(message: Message): string {\nmatch message {\nJob { id, label } {\nprint id\nreturn label\n}\nText(text) {\nreturn text\n}\n}\n}\n\nlet message: Message = Job { id: 7, label: \"named payload\" }\nprint render(message)\n";
    let parsed = parse_program(source, "main.ax").expect("parse");
    assert_eq!(
        parsed.enums[0].variants[0].payload_names,
        vec![String::from("id"), String::from("label")]
    );
    let axiomc::syntax::Stmt::Match { arms, .. } = &parsed.functions[0].body[0] else {
        panic!("expected match statement");
    };
    assert!(arms[0].is_named);
    assert_eq!(
        arms[0].bindings,
        vec![String::from("id"), String::from("label")]
    );
    let hir = hir::lower(&parsed).expect("lower");
    let mir = mir::lower(&hir);
    let rendered = render_rust(&mir);
    assert!(rendered.contains("Job {"));
    assert!(rendered.contains("id: i64,"));
    assert!(rendered.contains("label: String,"));
    assert!(rendered.contains("Message::Job { id, label } => {"));
    assert!(rendered.contains(
        "let message: Message = Message::Job { id: 7, label: String::from(\"named payload\") };"
    ));
}

#[test]
fn whitespace_only_source_parses_to_empty_program() {
    let parsed = parse_program("  \n\t\n\n", "main.ax").expect("parse");
    assert!(parsed.imports.is_empty());
    assert!(parsed.structs.is_empty());
    assert!(parsed.enums.is_empty());
    assert!(parsed.functions.is_empty());
    assert!(parsed.stmts.is_empty());
}

#[test]
fn variant_name_shared_by_two_enums_is_rejected() {
    let source = "enum Light {\nRed\nGreen\n}\n\nenum Paint {\nRed\nBlue\n}\n";
    let parsed = parse_program(source, "main.ax").expect("parse");
    let err = hir::lower(&parsed).expect_err("lower");
    assert_eq!(err.kind, "type");
    assert!(err.message.contains("duplicate variant name"));
}

#[test]
fn http_get_needs_the_net_capability() {
    let parsed = parse_program("print http_get(\"http://x/\")\n", "main.ax").expect("parse");
    let error = hir::lower(&parsed).expect_err("net is off by default");
    assert_eq!(error.kind, "capability");
    assert_eq!(error.message, "call to \"http_get\" requires [capabilities].net = true");
    let mut caps = axiomc::manifest::CapabilityConfig::default();
    caps.net = true;
    let error = hir::lower_with_capabilities(&parsed, &caps).expect_err("an Option is not printable");
    assert_eq!(error.kind, "type");
    let parsed = parse_program("let page: Option<string> = http_get(\"http://x/\")\n", "main.ax").expect("parse");
    let lowered = hir::lower_with_capabilities(&parsed, &caps).expect("net granted");
    assert_eq!(lowered.stmts.len(), 1);
    match &lowered.stmts[0] {
        hir::Stmt::Let { expr: hir::Expr::Call { name, ty, .. }, .. } => {
            assert_eq!(name, "http_get");
            assert_eq!(*ty, hir::Type::Option(Box::new(hir::Type::String)));
        }
        other => panic!("unexpected statement {other:?}"),
    }
}

#[test]
fn empty_program_lowers_to_empty_program() {
    let parsed = parse_program("", "main.ax").expect("parse");
    let lowered = hir::lower(&parsed).expect("empty program is accepted");
    assert!(lowered.structs.is_empty() && lowered.enums.is_empty());
    assert!(lowered.functions.is_empty() && lowered.stmts.is_empty());
}

#[test]
fn print_lines_parse_to_print_statements_in_order() {
    let parsed = parse_program("print alpha\n\n  print true\nprint beta", "main.ax").expect("parse");
    assert!(parsed.imports.is_empty() && parsed.structs.is_empty());
    assert!(parsed.enums.is_empty() && parsed.functions.is_empty());
    assert_eq!(parsed.stmts.len(), 3);
    match &parsed.stmts[0] {
        Stmt::Print { expr: Expr::VarRef { name, .. }, line, .. } => {
            assert_eq!(name, "alpha");
            assert_eq!(*line, 1);
        }
        other => panic!("unexpected statement {other:?}"),
    }
    match &parsed.stmts[1] {
        Stmt::Print { expr, line, .. } => {
            assert_eq!(*expr, Expr::Literal(Literal::Bool(true)));
            assert_eq!(*line, 3);
        }
        other => panic!("unexpected statement {other:?}"),
    }
    match &parsed.stmts[2] {
        Stmt::Print { expr: Expr::VarRef { name, .. }, .. } => assert_eq!(name, "beta"),
        other => panic!("unexpected statement {other:?}"),
    }
}

#[test]
fn wrapped_type_names_parse_to_their_forms() {
    let source = "let a: [int] = [1]\nlet b: Option<Config> = None\n";
    let parsed = parse_program(source, "main.ax").expect("parse");
    match &parsed.stmts[0] {
        Stmt::Let { ty, .. } => assert_eq!(*ty, TypeName::Array(Box::new(TypeName::Int))),
        other => panic!("unexpected statement {other:?}"),
    }
    match &parsed.stmts[1] {
        Stmt::Let { ty, .. } => {
            assert_eq!(*ty, TypeName::Option(Box::new(TypeName::Named(String::from("Config")))))
        }
        other => panic!("unexpected statement {other:?}"),
    }
}

#[test]
fn plain_string_literal_keeps_its_text() {
    let parsed = parse_program("print \"http://x.y/z\"\n", "main.ax").expect("parse");
    match &parsed.stmts[0] {
        Stmt::Print { expr, .. } => assert_eq!(*expr, Expr::Literal(Literal::String(String::from("http://x.y/z")))),
        other => panic!("unexpected statement {other:?}"),
    }
}

#[test]
fn comparison_of_two_words_parses_to_its_operator() {
    let cases = [
        ("a<b", CompareOp::Lt),
        ("a<=b", CompareOp::Le),
        ("a>b", CompareOp::Gt),
        ("a>=b", CompareOp::Ge),
        ("a==b", CompareOp::Eq),
        ("a!=b", CompareOp::Ne),
        ("a < b", CompareOp::Lt),
        ("a <= b", CompareOp::Le),
        ("a  >  b", CompareOp::Gt),
        ("a >= b", CompareOp::Ge),
        ("a == b", CompareOp::Eq),
        ("a != b", CompareOp::Ne),
    ];
    for (text, want) in cases {
        let source = format!("print {text}\n");
        let parsed = parse_program(&source, "main.ax").expect("parse");
        match &parsed.stmts[0] {
            Stmt::Print { expr: Expr::BinaryCompare { op, lhs, rhs, .. }, .. } => {
                assert_eq!(*op, want);
                assert!(matches!(&**lhs, Expr::VarRef { name, .. } if name == "a"));
                assert!(matches!(&**rhs, Expr::VarRef { name, .. } if name == "b"));
            }
            other => panic!("unexpected statement {other:?}"),
        }
    }
}

#[test]
fn checked_structs_come_in_name_order() {
    let source = "struct Zeta {\nvalue: int\n}\n\nstruct Alpha {\nvalue: int\n}\n\nprint 1\n";
    let parsed = parse_program(source, "main.ax").expect("parse");
    let lowered = hir::lower(&parsed).expect("lower");
    let names: Vec<&str> = lowered.structs.iter().map(|s| s.name.as_str()).collect();
    assert_eq!(names, vec!["Alpha", "Zeta"]);
}

#[test]
fn simple_lets_and_prints_lower_in_order() {
    let source = "let greeting: string = \"hello\"\nlet count: int = 3\nlet alias: string = greeting\n\nprint alias\nprint count\n";
    let parsed = parse_program(source, "main.ax").expect("parse");
    assert_eq!(parsed.stmts.len(), 5);
    match &parsed.stmts[0] {
        Stmt::Let { name, ty, expr, .. } => {
            assert_eq!(name, "greeting");
            assert_eq!(*ty, TypeName::String);
            assert_eq!(*expr, Expr::Literal(Literal::String(String::from("hello"))));
        }
        other => panic!("unexpected statement {other:?}"),
    }
    let lowered = hir::lower(&parsed).expect("accepted");
    assert_eq!(lowered.stmts.len(), 5);
    match &lowered.stmts[2] {
        hir::Stmt::Let { name, ty, expr: hir::Expr::VarRef { name: source_name, .. } } => {
            assert_eq!(name, "alias");
            assert_eq!(*ty, hir::Type::String);
            assert_eq!(source_name, "greeting");
        }
        other => panic!("unexpected statement {other:?}"),
    }
}

#[test]
fn reading_a_moved_string_is_refused() {
    let source = "let greeting: string = \"hello\"\nlet alias: string = greeting\nprint alias\nprint greeting\n";
    let parsed = parse_program(source, "main.ax").expect("parse");
    let error = hir::lower(&parsed).expect_err("greeting was moved");
    assert_eq!(error.kind, "ownership");
    assert_eq!(error.message, "use of moved value \"greeting\"");
}

#[test]
fn result_type_keeps_ok_before_err() {
    let parsed = parse_program("let r: Result<int, string> = x\n", "main.ax").expect("parse");
    match &parsed.stmts[0] {
        Stmt::Let { ty, .. } => assert_eq!(
            *ty,
            TypeName::Result(Box::new(TypeName::Int), Box::new(TypeName::String))
        ),
        other => panic!("unexpected statement {other:?}"),
    }
}

#[test]
fn field_access_of_a_word_keeps_the_field() {
    let parsed = parse_program("print info.count\n", "main.ax").expect("parse");
    match &parsed.stmts[0] {
        Stmt::Print { expr: Expr::FieldAccess { base, field, .. }, .. } => {
            assert_eq!(field, "count");
            assert!(matches!(&**base, Expr::VarRef { name, .. } if name == "info"));
        }
        other => panic!("unexpected statement {other:?}"),
    }
}

#[test]
fn sums_and_comparisons_of_simple_values_lower() {
    let source = "let base: int = 40\nlet total: int = base + 2\nlet word: string = \"a\" + \"b\"\nprint total == 42\nprint base < total\n";
    let parsed = parse_program(source, "main.ax").expect("parse");
    let lowered = hir::lower(&parsed).expect("accepted");
    assert_eq!(lowered.stmts.len(), 5);
    match &lowered.stmts[1] {
        hir::Stmt::Let { name, ty, expr: hir::Expr::BinaryAdd { lhs, rhs, ty: sum_ty } } => {
            assert_eq!(name, "total");
            assert_eq!(*ty, hir::Type::Int);
            assert_eq!(*sum_ty, hir::Type::Int);
            assert!(matches!(&**lhs, hir::Expr::VarRef { name, .. } if name == "base"));
            assert_eq!(**rhs, hir::Expr::Literal { value: hir::LiteralValue::Int(2), ty: hir::Type::Int });
        }
        other => panic!("unexpected statement {other:?}"),
    }
    match &lowered.stmts[2] {
        hir::Stmt::Let { expr: hir::Expr::BinaryAdd { ty, .. }, .. } => assert_eq!(*ty, hir::Type::String),
        other => panic!("unexpected statement {other:?}"),
    }
    match &lowered.stmts[4] {
        hir::Stmt::Print(hir::Expr::BinaryCompare { op, ty, .. }) => {
            assert_eq!(*op, hir::CompareOp::Lt);
            assert_eq!(*ty, hir::Type::Bool);
        }
        other => panic!("unexpected statement {other:?}"),
    }
}

#[test]
fn adding_an_int_to_a_string_is_a_type_error() {
    let parsed = parse_program("let word: string = \"a\"\nprint word + 1\n", "main.ax").expect("parse");
    let error = hir::lower(&parsed).expect_err("mismatched operands");
    assert_eq!(error.kind, "type");
    let parsed = parse_program("print 1 < true\n", "main.ax").expect("parse");
    let error = hir::lower(&parsed).expect_err("ordering needs ints");
    assert_eq!(error.kind, "type");
}

#[test]
fn map_type_keeps_key_before_value() {
    let parsed = parse_program("let m: { string : int } = x\n", "main.ax").expect("parse");
    match &parsed.stmts[0] {
        Stmt::Let { ty, .. } => assert_eq!(
            *ty,
            TypeName::Dict(Box::new(TypeName::String), Box::new(TypeName::Int))
        ),
        other => panic!("unexpected statement {other:?}"),
    }
}

#[test]
fn mutable_slice_type_is_kept_apart_from_a_shared_one() {
    let parsed = parse_program("let a: &mut [int] = x\nlet b: &[int] = y\n", "main.ax").expect("parse");
    match &parsed.stmts[0] {
        Stmt::Let { ty, .. } => assert_eq!(*ty, TypeName::MutSlice(Box::new(TypeName::Int))),
        other => panic!("unexpected statement {other:?}"),
    }
    match &parsed.stmts[1] {
        Stmt::Let { ty, .. } => assert_eq!(*ty, TypeName::Slice(Box::new(TypeName::Int))),
        other => panic!("unexpected statement {other:?}"),
    }
}

#[test]
fn a_leading_closing_brace_is_refused_at_its_line() {
    let error = parse_program("\n  }  \nprint x\n", "main.ax").expect_err("stray brace");
    assert_eq!(error.kind, "parse");
    assert_eq!(error.message, "unexpected closing brace");
    assert_eq!(error.line, Some(2));
    assert_eq!(error.column, Some(1));
}

#[test]
fn declarations_come_out_by_name_with_fields_in_declared_order() {
    let source = "struct Zeta {\nb: int\na: string\n}\n\nstruct Alpha {\nz: bool\n}\n\nenum Mode {\nOn\nOff\n}\n\nenum Color {\nRed\n}\n\nprint 1\n";
    let parsed = parse_program(source, "main.ax").expect("parse");
    let lowered = hir::lower(&parsed).expect("accepted");
    let names: Vec<&str> = lowered.structs.iter().map(|s| s.name.as_str()).collect();
    assert_eq!(names, vec!["Alpha", "Zeta"]);
    let fields: Vec<&str> = lowered.structs[1].fields.iter().map(|f| f.name.as_str()).collect();
    assert_eq!(fields, vec!["b", "a"]);
    let enums: Vec<&str> = lowered.enums.iter().map(|e| e.name.as_str()).collect();
    assert_eq!(enums, vec!["Color", "Mode"]);
}

#[test]
fn struct_literal_fields_follow_the_declaration() {
    let source = "struct Point {\nx: int\ny: int\n}\n\nlet p: Point = Point { y: 2, x: 1 }\nprint 0\n";
    let parsed = parse_program(source, "main.ax").expect("parse");
    let lowered = hir::lower(&parsed).expect("accepted");
    match &lowered.stmts[0] {
        hir::Stmt::Let { expr: hir::Expr::StructLiteral { fields, .. }, .. } => {
            let names: Vec<&str> = fields.iter().map(|f| f.name.as_str()).collect();
            assert_eq!(names, vec!["x", "y"]);
        }
        other => panic!("unexpected statement {other:?}"),
    }
}

#[test]
fn copying_an_int_leaves_it_usable() {
    let source = "let count: int = 3\nlet copy: int = count\nprint count\nprint copy\n";
    let parsed = parse_program(source, "main.ax").expect("parse");
    let lowered = hir::lower(&parsed).expect("ints are copied");
    assert_eq!(lowered.stmts.len(), 4);
    assert_eq!(mir::lower(&lowered).statement_count(), 4);
}

#[test]
fn a_while_over_ints_with_a_simple_body_is_accepted() {
    let source = "let n: int = 0\nwhile n < 3 {\nprint n\nlet s: string = \"x\"\nprint s\n}\n";
    let parsed = parse_program(source, "main.ax").expect("parse");
    let lowered = hir::lower(&parsed).expect("accepted");
    match &lowered.stmts[1] {
        hir::Stmt::While { cond: hir::Expr::BinaryCompare { op, .. }, body } => {
            assert_eq!(*op, hir::CompareOp::Lt);
            assert_eq!(body.len(), 3);
            assert!(matches!(&body[1], hir::Stmt::Let { name, .. } if name == "s"));
        }
        other => panic!("unexpected statement {other:?}"),
    }
}

#[test]
fn an_if_keeps_both_branches_unless_the_condition_is_constant() {
    let source = "let ready: bool = true\nif ready {\nprint 1\n} else {\nprint 2\nprint 3\n}\nif true {\nprint 4\n} else {\nprint 5\n}\n";
    let parsed = parse_program(source, "main.ax").expect("parse");
    let lowered = hir::lower(&parsed).expect("accepted");
    match &lowered.stmts[1] {
        hir::Stmt::If { then_block, else_block: Some(else_block), .. } => {
            assert_eq!(then_block.len(), 1);
            assert_eq!(else_block.len(), 2);
        }
        other => panic!("unexpected statement {other:?}"),
    }
    match &lowered.stmts[2] {
        hir::Stmt::If { then_block, else_block: Some(else_block), .. } => {
            assert_eq!(then_block.len(), 1);
            assert!(else_block.is_empty());
        }
        other => panic!("unexpected statement {other:?}"),
    }
}

#[test]
fn a_return_outside_any_function_is_refused() {
    let parsed = parse_program("return 42\n", "main.ax").expect("parse");
    let error = hir::lower(&parsed).expect_err("top-level return");
    assert_eq!(error.kind, "control");
    assert_eq!(error.message, "return is only valid inside a function");
}

#[test]
fn none_without_an_expected_option_is_refused() {
    let parsed = parse_program("print None\n", "main.ax").expect("parse");
    let error = hir::lower(&parsed).expect_err("no Option context");
    assert_eq!(error.kind, "type");
    assert_eq!(error.message, "None requires an expected Option<T> context");
}

#[test]
fn some_with_a_payload_of_the_wrong_type_is_refused() {
    let parsed = parse_program("let x: Option<int> = Some(\"a\")\n", "main.ax").expect("parse");
    let error = hir::lower(&parsed).expect_err("payload is a string");
    assert_eq!(error.kind, "type");
    let parsed = parse_program("let y: Option<int> = Some(3)\n", "main.ax").expect("parse");
    assert!(hir::lower(&parsed).is_ok());
}

#[test]
fn a_match_on_an_option_needs_both_arms() {
    let partial = "fn unwrap(value: Option<int>): int {\nmatch value {\nSome(count) {\nreturn count\n}\n}\n}\n\nprint 0\n";
    let parsed = parse_program(partial, "main.ax").expect("parse");
    let error = hir::lower(&parsed).expect_err("None is not covered");
    assert_eq!(error.kind, "type");
    assert!(error.message.contains("not exhaustive"));
    assert!(error.message.contains("None"));
    let full = "fn unwrap(value: Option<int>): int {\nmatch value {\nSome(count) {\nreturn count\n}\nNone {\nreturn 0\n}\n}\n}\n\nprint 0\n";
    let parsed = parse_program(full, "main.ax").expect("parse");
    assert!(hir::lower(&parsed).is_ok());
}
