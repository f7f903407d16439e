use cwa_fetch::finder::{find_objects, CondKeys};
use cwa_fetch::lower::{lower_expr, lower_parsed, lower_script, ErrorKind, ParseError};
use cwa_fetch::syntax::{Elem, Expr, Prop, PropKey, Script, Sign, Stmt};
use cwa_fetch::task::{human_size, lookup_str, size_unit, Img, Task};
use cwa_fetch::value::Value;
use swc_common::{input::StringInput, BytePos};
use swc_ecma_ast as ast;
use swc_ecma_parser::Parser;

fn parse_source(source: &str) -> Result<Value, ParseError> {
    lower_parsed(parse_tree(source))
}

fn parse_tree(source: &str) -> Result<Script, ParseError> {
    let input = StringInput::new(source, BytePos(0), BytePos(source.len() as u32));
    let mut parser = Parser::new(Default::default(), input, None);
    let parsed = parser.parse_script();
    // errors the parser recovered from still make the text malformed
    let recovered = parser.take_errors();
    match (parsed, recovered.into_iter().next()) {
        (Ok(script), None) => Ok(Script {
            body: script.body.into_iter().map(stmt).collect(),
        }),
        (Err(err), _) | (Ok(_), Some(err)) => {
            Err(ParseError::syntax(err.kind().msg().to_string()))
        }
    }
}

fn stmt(s: ast::Stmt) -> Stmt {
    match s {
        ast::Stmt::Decl(ast::Decl::Var(var)) => Stmt::Var(
            var.decls
                .into_iter()
                .map(|d| d.init.map(|e| expr(*e)))
                .collect(),
        ),
        _ => Stmt::Other,
    }
}

fn expr(e: ast::Expr) -> Expr {
    match e {
        ast::Expr::Object(o) => Expr::Object(o.props.into_iter().map(prop).collect()),
        ast::Expr::Array(a) => Expr::Array(a.elems.into_iter().map(elem).collect()),
        ast::Expr::Lit(ast::Lit::Str(s)) => Expr::Str(s.value.to_atom_lossy().to_string()),
        ast::Expr::Lit(ast::Lit::Num(n)) => Expr::Num(n.value.to_bits()),
        ast::Expr::Lit(ast::Lit::Bool(b)) => Expr::Bool(b.value),
        ast::Expr::Lit(ast::Lit::Null(_)) => Expr::Null,
        ast::Expr::Unary(u) => match u.op {
            ast::UnaryOp::Minus => Expr::Unary(Sign::Minus, Box::new(expr(*u.arg))),
            ast::UnaryOp::Plus => Expr::Unary(Sign::Plus, Box::new(expr(*u.arg))),
            _ => Expr::Unsupported,
        },
        _ => Expr::Unsupported,
    }
}

fn elem(e: Option<ast::ExprOrSpread>) -> Elem {
    match e {
        None => Elem::Hole,
        Some(x) if x.spread.is_some() => Elem::Spread,
        Some(x) => Elem::Item(expr(*x.expr)),
    }
}

fn prop(p: ast::PropOrSpread) -> Prop {
    match p {
        ast::PropOrSpread::Prop(p) => match *p {
            ast::Prop::KeyValue(kv) => match key(kv.key) {
                Some(k) => Prop::KeyValue(k, expr(*kv.value)),
                None => Prop::Unsupported,
            },
            _ => Prop::Unsupported,
        },
        ast::PropOrSpread::Spread(_) => Prop::Unsupported,
    }
}

fn key(k: ast::PropName) -> Option<PropKey> {
    match k {
        ast::PropName::Str(s) => Some(PropKey::Str(s.value.to_atom_lossy().to_string())),
        ast::PropName::Ident(i) => Some(PropKey::Ident(i.sym.to_string())),
        ast::PropName::Num(n) => Some(PropKey::Num(n.value.to_string())),
        _ => None,
    }
}

fn to_json(v: &Value) -> serde_json::Value {
    match v {
        Value::Null => serde_json::Value::Null,
        Value::Bool(b) => serde_json::Value::Bool(*b),
        Value::Number(n) => serde_json::Value::Number(
            serde_json::Number::from_f64(f64::from_bits(*n)).unwrap(),
        ),
        Value::Str(s) => serde_json::Value::String(s.clone()),
        Value::Array(a) => serde_json::Value::Array(a.iter().map(to_json).collect()),
        Value::Object(o) => {
            let mut m = serde_json::Map::new();
            for (k, x) in o {
                m.insert(k.clone(), to_json(x));
            }
            serde_json::Value::Object(m)
        }
    }
}

fn lowered_json(source: &str) -> serde_json::Value {
    to_json(&parse_source(source).unwrap())
}

const SOURCE: &str = r#"var data = {
    "object_key": {
        "string_key": "string",
        "bool_key": false,
        "number_key": 123456,
        "float_key": 3.1415926,
        "array_key": [1, +12, -24, 3.1415926, -0.3, true, false, null, "Hello World", {"object_in_array": true}]
    },
    "illegal stuff": [["down", "here"], "this is" + " killing me",...dont_collect_me],
    "chinese": "這可以處理中文嗎?", english: "can this handle same line?",
    3.1415926: "float(pi)",
    true: "bool",
    100: "number",
    null: "stop it",
    SOME_KEY: "key should be \"SOME_KEY\"",
    "don't parse function 1": function (name) {console.log(`Hello ${name}`)},
    "don't parse function 2": msg => console.log(msg),
    "end": true,
    }"#;

const EXPECT: &str = r#"{
    "object_key": {
        "string_key": "string",
        "bool_key": false,
        "number_key": 123456.0,
        "float_key": 3.1415926,
        "array_key": [1.0, 12.0, -24.0, 3.1415926, -0.3, true, false, null, "Hello World", {"object_in_array": true}]
    },
    "illegal stuff": [["down", "here"]],
    "chinese": "這可以處理中文嗎?", "english": "can this handle same line?",
    "3.1415926": "float(pi)",
    "true": "bool",
    "100": "number",
    "null": "stop it",
    "SOME_KEY": "key should be \"SOME_KEY\"",
    "end": true
    }"#;

#[test]
fn test_parser() {
    let value = parse_source(SOURCE).unwrap();
    let expect: serde_json::Value = serde_json::from_str(EXPECT).unwrap();
    assert_eq!(expect, to_json(&value));
}

const SOURCE2: &str = r#"var data = {
        "try_this": {
            "string": "hello",
            "number": 12,
            "bool": true,
        }
    }"#;

#[derive(Debug, PartialEq)]
struct TryThis {
    string: String,
    number: f64,
    bool: bool,
}

fn entry<'a>(m: &'a [(String, Value)], k: &str) -> Option<&'a Value> {
    m.iter().find(|(key, _)| key == k).map(|(_, v)| v)
}

impl CondKeys for TryThis {
    fn keys() -> Vec<String> {
        vec!["string".to_string(), "number".to_string(), "bool".to_string()]
    }

    fn decode(v: &Value) -> Option<TryThis> {
        let Value::Object(m) = v else { return None };
        let string = lookup_str(m, "string")?;
        let Some(Value::Number(n)) = entry(m, "number") else { return None };
        let Some(Value::Bool(b)) = entry(m, "bool") else { return None };
        Some(TryThis { string, number: f64::from_bits(*n), bool: *b })
    }
}

#[test]
fn test_find_object() {
    let expect = TryThis {
        string: String::from("hello"),
        number: 12.0,
        bool: true,
    };

    let value = parse_source(SOURCE2).unwrap();
    let mut objects = find_objects::<TryThis>(value);
    let object = objects.pop().unwrap();
    assert_eq!(expect, object);
}

fn num(x: f64) -> Value {
    Value::Number(x.to_bits())
}

#[test]
fn duplicate_key_last_wins() {
    let v = parse_source(r#"var x = {"a": 1, "b": 3, "a": 2}"#).unwrap();
    let Value::Object(m) = &v else { panic!("not an object") };
    assert_eq!(m.len(), 2);
    assert_eq!(m[0].0, "a");
    assert_eq!(to_json(&m[0].1), jn(2.0));
    assert_eq!(m[1].0, "b");
}

#[test]
fn pruning_takes_outer_object_only() {
    let v = parse_source(
        r#"var x = {"img":"a.png","text":"t","inner":{"img":"b.png","text":"u"}}"#,
    )
    .unwrap();
    let found = find_objects::<Img>(v);
    assert_eq!(found.len(), 1);
    assert_eq!(found[0].img, "a.png");
    assert_eq!(found[0].text, "t");
}

#[test]
fn failed_decode_searches_inside() {
    let v = parse_source(
        r#"var x = [{"img":"a","text":1,"sub":{"img":"b","text":"c"}}, 7, {"img":"d","text":"e","more":2}]"#,
    )
    .unwrap();
    let found = find_objects::<Img>(v);
    let imgs: Vec<&str> = found.iter().map(|i| i.img.as_str()).collect();
    assert_eq!(imgs, vec!["b", "d"]);
}

#[test]
fn unsupported_property_absorbed() {
    let v = parse_source(r#"var x = {"a": 1, "b": function(){}, "c": 2}"#).unwrap();
    let expect: serde_json::Value = serde_json::from_str(r#"{"a": 1.0, "c": 2.0}"#).unwrap();
    assert_eq!(to_json(&v), expect);
    let Value::Object(m) = &v else { panic!("not an object") };
    assert_eq!(m.len(), 2);
}

#[test]
fn unary_sign_handling() {
    assert_eq!(lowered_json("var a = -5;"), jn(-5.0));
    assert_eq!(lowered_json("var a = +5;"), jn(5.0));
    let e = Expr::Unary(Sign::Minus, Box::new(Expr::Str("x".to_string())));
    assert!(lower_expr(&e).is_none());
    let err = parse_source(r#"var a = -"x";"#).unwrap_err();
    assert_eq!(err.error_kind(), ErrorKind::NothingFound);
    let twice = Expr::Unary(
        Sign::Minus,
        Box::new(Expr::Unary(Sign::Minus, Box::new(Expr::Num(5.0f64.to_bits())))),
    );
    assert_eq!(to_json(&lower_expr(&twice).unwrap()), jn(5.0));
}

#[test]
fn multiple_declarations_become_array() {
    let expect: serde_json::Value = serde_json::from_str(r#"[1.0, "x"]"#).unwrap();
    assert_eq!(lowered_json(r#"var a = 1; var b = "x";"#), expect);
    assert_eq!(lowered_json("var a = 1;"), jn(1.0));
    let expect3: serde_json::Value = serde_json::from_str(r#"[1.0, 2.0, 3.0]"#).unwrap();
    assert_eq!(lowered_json("var a = 1, b = 2, u; f(); var c = 3;"), expect3);
}

#[test]
fn unterminated_string_is_syntax_error() {
    let err = parse_source("var a = \"abc").unwrap_err();
    assert_eq!(err.error_kind(), ErrorKind::Syntax);
    assert!(!err.message().is_empty());
}

#[test]
fn script_without_values_is_nothing_found() {
    let err = parse_source("foo(1); function f() {}").unwrap_err();
    assert_eq!(err.error_kind(), ErrorKind::NothingFound);
    let empty = Script { body: vec![Stmt::Other, Stmt::Var(vec![None])] };
    assert!(lower_script(&empty).is_none());
}

#[test]
fn syntax_error_passes_through() {
    let err = lower_parsed(Err(ParseError::syntax("bad".to_string()))).unwrap_err();
    assert_eq!(err.error_kind(), ErrorKind::Syntax);
    assert_eq!(err.message(), "bad");
}

#[test]
fn holes_and_spreads_dropped() {
    let expect: serde_json::Value = serde_json::from_str("[1.0, 2.0]").unwrap();
    assert_eq!(lowered_json("var a = [1, , 2, ...b, c];"), expect);
}

#[test]
fn canonical_literal_round_trips() {
    let v = Value::Object(vec![
        ("k".to_string(), Value::Array(vec![num(-1.5), Value::Null, Value::Bool(true)])),
        ("s".to_string(), Value::Str("t".to_string())),
        ("o".to_string(), Value::Object(vec![("z".to_string(), num(0.0))])),
    ]);
    let back = lower_expr(&v.to_expr()).unwrap();
    assert_eq!(to_json(&back), to_json(&v));
    let Value::Object(m) = &back else { panic!("not an object") };
    let keys: Vec<&str> = m.iter().map(|(k, _)| k.as_str()).collect();
    assert_eq!(keys, vec!["k", "s", "o"]);
}

#[test]
fn object_keys_normalised() {
    let e = Expr::Object(vec![
        Prop::KeyValue(PropKey::Ident("a".to_string()), Expr::Null),
        Prop::Unsupported,
        Prop::KeyValue(PropKey::Num("1.5".to_string()), Expr::Bool(false)),
        Prop::KeyValue(PropKey::Str("q".to_string()), Expr::Array(vec![Elem::Hole, Elem::Spread])),
    ]);
    let expect: serde_json::Value =
        serde_json::from_str(r#"{"a": null, "1.5": false, "q": []}"#).unwrap();
    assert_eq!(to_json(&lower_expr(&e).unwrap()), expect);
}

#[test]
fn image_file_name() {
    let img = Img { img: "/Data/satellite/LCC_IR1_2024.jpg".to_string(), text: "t".to_string() };
    assert_eq!(img.filename().as_deref(), Some("LCC_IR1_2024.jpg"));
    let up = Img { img: "a/..".to_string(), text: String::new() };
    assert_eq!(up.filename(), None);
}

#[test]
fn task_targets_filter_by_path() {
    let task = Task::new_sat("LCC".to_string());
    assert_eq!(task.list, "/Data/js/obs_img/Observe_sat.js");
    assert_eq!(task.dir, "/Data/satellite/");
    let list = vec![
        Img { img: "a_LCC_1.jpg".to_string(), text: "1".to_string() },
        Img { img: "b_TRGB.jpg".to_string(), text: "2".to_string() },
        Img { img: "c_LCC_2.jpg".to_string(), text: "3".to_string() },
    ];
    let picked: Vec<String> = task.targets(list).into_iter().map(|i| i.img).collect();
    assert_eq!(picked, vec!["a_LCC_1.jpg", "c_LCC_2.jpg"]);
}

#[test]
fn task_constructors() {
    let r = Task::new_radar("x".to_string());
    assert_eq!(r.list, "/Data/js/obs_img/Observe_radar.js");
    assert_eq!(r.dir, "/Data/radar/");
    let rr = Task::new_radar_rain("RCLY_3600".to_string());
    assert_eq!(rr.list, "/Data/js/obs_img/Observe_radar_rain.js");
    assert_eq!(rr.dir, "/Data/radar_rain/");
    assert_eq!(rr.contains, "RCLY_3600");
    let c = Task::new("l".to_string(), "d".to_string(), "c".to_string());
    assert_eq!((c.list.as_str(), c.dir.as_str(), c.contains.as_str()), ("l", "d", "c"));
}

#[test]
fn size_units() {
    assert_eq!(size_unit(0), 0);
    assert_eq!(size_unit(1023), 0);
    assert_eq!(size_unit(1024), 1);
    assert_eq!(size_unit(1024 * 1024 - 1), 1);
    assert_eq!(size_unit(1024 * 1024), 2);
    assert_eq!(size_unit(1 << 30), 3);
    assert_eq!(size_unit(1 << 40), 4);
    assert_eq!(size_unit(u64::MAX), 4);
}

fn jn(x: f64) -> serde_json::Value {
    serde_json::Value::Number(serde_json::Number::from_f64(x).unwrap())
}

fn float_size_text(size: usize) -> String {
    let units = ['K', 'M', 'G', 'T'];
    let mut unit = ' ';
    let mut fsize = size as f64;
    for u in units {
        if fsize / 1024.0 < 1.0 {
            break;
        }
        fsize /= 1024.0;
        unit = u;
    }
    format!("{:.2}{}B", fsize, unit)
}

#[test]
fn human_size_values() {
    assert_eq!(human_size(0), "0.00 B");
    assert_eq!(human_size(1023), "1023.00 B");
    assert_eq!(human_size(1536), "1.50KB");
    assert_eq!(human_size(1024 * 1024), "1.00MB");
    assert_eq!(human_size(5 << 40), "5.00TB");
    assert_eq!(human_size(1 << 50), "1024.00TB");
}

#[test]
fn human_size_matches_float_formatting() {
    for size in 0..300_000usize {
        assert_eq!(human_size(size), float_size_text(size), "size {}", size);
    }
    for size in [1usize << 20, (1 << 20) + 5243, (3 << 30) + 12345, (7 << 40) + 999] {
        assert_eq!(human_size(size), float_size_text(size), "size {}", size);
    }
}
