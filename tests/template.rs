use std::cell::{Cell, RefCell};
use std::rc::Rc;

use mustache::{compile_str, Context, Data, Error, Lambda, MapBuilder, Template, VecBuilder};

fn name_world() -> Data {
    MapBuilder::new().insert_str("name".to_string(), "world".to_string()).build()
}

fn render(template: &str, data: &Data) -> Result<String, Error> {
    compile_str(template)?.render_data(data)
}

fn render_data(template: &Template, data: &Data) -> String {
    template.render_data(data).unwrap()
}

fn table(entries: Vec<(&str, Data)>) -> Data {
    Data::Table(entries.into_iter().map(|(k, v)| (k.to_string(), v)).collect())
}

fn text(s: &str) -> Data {
    Data::Str(s.to_string())
}

struct Const(&'static str);

impl Lambda for Const {
    fn call(&self, _text: String) -> String {
        self.0.to_string()
    }
}

/// Remembers what it was given and how often.
struct Recorder {
    seen: Rc<RefCell<Vec<String>>>,
    calls: Rc<Cell<u32>>,
    answer: &'static str,
}

impl Lambda for Recorder {
    fn call(&self, text: String) -> String {
        self.calls.set(self.calls.get() + 1);
        self.seen.borrow_mut().push(text);
        self.answer.to_string()
    }
}

struct Wrap;

impl Lambda for Wrap {
    fn call(&self, text: String) -> String {
        "__".to_string() + &text + "__"
    }
}

#[test]
fn test_render_texts() {
    let ctx = name_world();

    assert_eq!(render("hello world", &ctx), Ok("hello world".to_string()));
    assert_eq!(render("hello {world", &ctx), Ok("hello {world".to_string()));
    assert_eq!(render("hello world}", &ctx), Ok("hello world}".to_string()));
    assert_eq!(render("hello {world}", &ctx), Ok("hello {world}".to_string()));
    assert_eq!(render("hello world}}", &ctx), Ok("hello world}}".to_string()));
}

#[test]
fn test_render_etags() {
    let ctx = name_world();

    assert_eq!(render("hello {{name}}", &ctx), Ok("hello world".to_string()));
}

#[test]
fn test_render_utags() {
    let ctx = name_world();

    assert_eq!(render("hello {{{name}}}", &ctx), Ok("hello world".to_string()));
}

#[test]
fn test_render_sections() {
    let template = compile_str("0{{#a}}1 {{n}} 3{{/a}}5").unwrap();

    assert_eq!(render_data(&template, &table(vec![])), "05".to_string());

    let ctx = table(vec![("a", Data::Vec(Vec::new()))]);
    assert_eq!(render_data(&template, &ctx), "05".to_string());

    let ctx = table(vec![("a", Data::Vec(Vec::new()))]);
    assert_eq!(render_data(&template, &ctx), "05".to_string());

    let ctx = table(vec![("a", Data::Vec(vec![table(vec![])]))]);
    assert_eq!(render_data(&template, &ctx), "01  35".to_string());

    let ctx = table(vec![("a", Data::Vec(vec![table(vec![("n", text("a"))])]))]);
    assert_eq!(render_data(&template, &ctx), "01 a 35".to_string());

    let ctx = table(vec![("a", Data::Fun(Box::new(Const("foo"))))]);
    assert_eq!(render_data(&template, &ctx), "0foo5".to_string());
}

#[test]
fn test_render_inverted_sections() {
    let template = compile_str("0{{^a}}1 3{{/a}}5").unwrap();

    assert_eq!(render_data(&template, &table(vec![])), "01 35".to_string());

    let ctx = table(vec![("a", Data::Vec(vec![]))]);
    assert_eq!(render_data(&template, &ctx), "01 35".to_string());

    let ctx = table(vec![("a", Data::Vec(vec![table(vec![])]))]);
    assert_eq!(render_data(&template, &ctx), "05".to_string());

    let ctx = table(vec![("a", Data::Vec(vec![table(vec![("n", text("a"))])]))]);
    assert_eq!(render_data(&template, &ctx), "05".to_string());
}

#[test]
fn escaped_and_raw_variables() {
    let ctx = table(vec![("name", text("<b>"))]);
    assert_eq!(render("{{name}}", &ctx), Ok("&lt;b&gt;".to_string()));
    assert_eq!(render("{{{name}}}", &ctx), Ok("<b>".to_string()));
    assert_eq!(render("{{&name}}", &ctx), Ok("<b>".to_string()));
    let ctx = table(vec![("q", text("a&b\"c'd"))]);
    assert_eq!(render("{{q}}", &ctx), Ok("a&amp;b&quot;c&#39;d".to_string()));
    let ctx = table(vec![("u", text("é<"))]);
    assert_eq!(render("{{u}}", &ctx), Ok("é&lt;".to_string()));
}

#[test]
fn rendering_twice_gives_the_same_text() {
    let template = compile_str("{{#xs}}<{{.}}>{{/xs}}{{^none}}!{{/none}}").unwrap();
    let ctx = MapBuilder::new()
        .insert_vec("xs".to_string(), |b| b.push_str("a".to_string()).push_str("b".to_string()))
        .build();
    let first = render_data(&template, &ctx);
    let second = render_data(&template, &ctx);
    assert_eq!(first, "<a><b>!".to_string());
    assert_eq!(first, second);
}

#[test]
fn section_values() {
    let template = "0{{#a}}1 {{n}} 3{{/a}}5";
    assert_eq!(render(template, &table(vec![("a", Data::Bool(false))])), Ok("05".to_string()));
    assert_eq!(
        render(template, &table(vec![("a", Data::Bool(true)), ("n", text("x"))])),
        Ok("01 x 35".to_string())
    );
    assert_eq!(
        render(template, &table(vec![("a", table(vec![("n", text("t"))]))])),
        Ok("01 t 35".to_string())
    );
    assert_eq!(render(template, &table(vec![("a", text("s"))])), Err(Error::UnexpectedValue));
}

#[test]
fn inverted_is_the_complement() {
    let values = vec![
        None,
        Some(Data::Bool(true)),
        Some(Data::Bool(false)),
        Some(Data::Vec(vec![])),
        Some(Data::Vec(vec![table(vec![])])),
        Some(table(vec![])),
    ];
    for v in values {
        let ctx = match v {
            None => table(vec![]),
            Some(d) => table(vec![("p", d)]),
        };
        let shown = render("{{#p}}X{{/p}}", &ctx).unwrap();
        let inverted = render("{{^p}}X{{/p}}", &ctx).unwrap();
        assert!((shown == "X") != (inverted == "X"));
    }
}

#[test]
fn dotted_names_anchor_at_the_first_segment() {
    let ctx = table(vec![
        ("a", table(vec![("b", table(vec![("c", text("deep"))]))])),
        ("c", text("top")),
    ]);
    assert_eq!(render("{{a.b.c}}", &ctx), Ok("deep".to_string()));
    assert_eq!(render("{{a.x.c}}", &ctx), Ok("".to_string()));
    assert_eq!(render("{{#a}}{{#b}}{{c}}{{/b}}{{/a}}", &ctx), Ok("deep".to_string()));
    let ctx = table(vec![("a", table(vec![("b", table(vec![]))])), ("b", table(vec![("c", text("outer"))]))]);
    assert_eq!(render("{{#a}}{{b.c}}{{/a}}", &ctx), Ok("".to_string()));
}

#[test]
fn implicit_iterator_and_text_frames() {
    let ctx = table(vec![("xs", Data::Vec(vec![text("a"), text("b")]))]);
    assert_eq!(render("{{#xs}}{{.}},{{/xs}}", &ctx), Ok("a,b,".to_string()));
    assert_eq!(render("{{#xs}}{{name}}{{/xs}}", &ctx), Err(Error::UnexpectedValue));
}

#[test]
fn lambda_gets_the_section_source() {
    let seen = Rc::new(RefCell::new(Vec::new()));
    let calls = Rc::new(Cell::new(0));
    let lambda = Recorder { seen: seen.clone(), calls: calls.clone(), answer: "{{planet}}" };
    let ctx = table(vec![("lambda", Data::Fun(Box::new(lambda))), ("planet", text("Earth"))]);
    let template = compile_str("<{{#lambda}}-{{x}}-{{/lambda}}>").unwrap();
    assert_eq!(render_data(&template, &ctx), "<Earth>".to_string());
    assert_eq!(render_data(&template, &ctx), "<Earth>".to_string());
    assert_eq!(calls.get(), 2);
    assert_eq!(*seen.borrow(), vec!["-{{x}}-".to_string(), "-{{x}}-".to_string()]);
}

#[test]
fn lambda_output_uses_the_section_delimiters() {
    let ctx = table(vec![("lambda", Data::Fun(Box::new(Wrap))), ("planet", text("Earth"))]);
    assert_eq!(
        render("{{= | | =}}<|#lambda|-|planet|-|/lambda|>", &ctx),
        Ok("<__-Earth-__>".to_string())
    );
}

#[test]
fn lambda_in_a_variable_is_rendered_with_default_delimiters() {
    let calls = Rc::new(Cell::new(0));
    let lambda = Recorder { seen: Rc::new(RefCell::new(Vec::new())), calls: calls.clone(), answer: ">{{planet}}" };
    let ctx = table(vec![("lambda", Data::Fun(Box::new(lambda))), ("planet", text("w"))]);
    assert_eq!(render("{{lambda}}", &ctx), Ok("&gt;w".to_string()));
    assert_eq!(render("{{{lambda}}}", &ctx), Ok(">w".to_string()));
    assert_eq!(calls.get(), 2);
}

#[test]
fn standalone_lines_are_removed() {
    let ctx = table(vec![("a", Data::Bool(true))]);
    assert_eq!(render("{{#a}}\n1\n{{/a}}\n", &ctx), Ok("1\n".to_string()));
    assert_eq!(render("  {{#a}}\n1\n  {{/a}}  \n", &ctx), Ok("1\n".to_string()));
    assert_eq!(render("a\n{{! note }}\nb", &ctx), Ok("a\nb".to_string()));
    assert_eq!(render("x {{#a}}y{{/a}} z\n", &ctx), Ok("x y z\n".to_string()));
    let ctx = table(vec![("v", text("1"))]);
    assert_eq!(render("  {{v}}  \n", &ctx), Ok("  1  \n".to_string()));
}

#[test]
fn delimiter_changes() {
    let ctx = table(vec![("x", text("1"))]);
    assert_eq!(render("{{=<% %>=}}<% x %>{{x}}", &ctx), Ok("1{{x}}".to_string()));
    assert_eq!(render("{{=<% %>=}}\n<%x%>", &ctx), Ok("1".to_string()));
}

#[test]
fn comments_leave_nothing() {
    assert_eq!(render("a{{! b }}c", &table(vec![])), Ok("ac".to_string()));
}

#[test]
fn unbalanced_sections_are_errors() {
    assert!(matches!(compile_str("{{#a}}"), Err(Error::UnbalancedSection)));
    assert!(matches!(compile_str("{{#a}}{{/b}}"), Err(Error::UnbalancedSection)));
    assert!(matches!(compile_str("{{/a}}"), Err(Error::UnbalancedSection)));
}

#[test]
fn partials_are_indented() {
    let mut template = Context::new(".").compile("<\n  {{>outer}}\n>").unwrap();
    assert!(!template.has_partial("outer"));
    template.add_partial("outer", "o1\n\n  {{>inner}}\no2\n").unwrap();
    template.add_partial("inner", "i1\ni2\n").unwrap();
    assert!(template.has_partial("inner"));
    assert_eq!(
        render_data(&template, &table(vec![])),
        "<\n  o1\n\n    i1\n    i2\n  o2\n>".to_string()
    );
}

#[test]
fn missing_partials_render_nothing() {
    assert_eq!(render("a{{>nothing}}b", &table(vec![])), Ok("ab".to_string()));
}

#[test]
fn runaway_partials_stop() {
    let mut template = compile_str("{{>p}}").unwrap();
    template.add_partial("p", "x{{>p}}").unwrap();
    assert_eq!(template.render_data(&table(vec![])), Err(Error::TooDeep));
}

#[test]
fn vec_of_tables_renders_each() {
    let ctx = MapBuilder::new()
        .insert_vec("names".to_string(), |b| {
            b.push_map(|m| m.insert_str("name".to_string(), "a".to_string()))
                .push_map(|m| m.insert_str("name".to_string(), "<b>".to_string()))
        })
        .build();
    assert_eq!(
        render("{{#names}}[{{name}}]{{/names}}", &ctx),
        Ok("[a][&lt;b&gt;]".to_string())
    );
    let _ = VecBuilder::new();
}

#[test]
fn compile_iter_reads_characters() {
    let template = mustache::compile_iter("hi {{x}}".chars()).unwrap();
    assert_eq!(render_data(&template, &table(vec![("x", text("you"))])), "hi you".to_string());
}

#[test]
fn an_unused_callback_changes_nothing() {
    let ctx = table(vec![("a", Data::Bool(true)), ("f", Data::Fun(Box::new(Const("no"))))]);
    assert_eq!(render("{{#a}}x{{/a}}", &ctx), Ok("x".to_string()));
    assert_eq!(render("{{^f}}x{{/f}}", &ctx), Ok("".to_string()));
}

#[test]
fn section_lambda_sees_its_inner_source() {
    struct Check;
    impl Lambda for Check {
        fn call(&self, text: String) -> String {
            if text == "{{x}}" { "yes".to_string() } else { "no".to_string() }
        }
    }
    let ctx = table(vec![("x", text("Error!")), ("lambda", Data::Fun(Box::new(Check)))]);
    assert_eq!(render("<{{#lambda}}{{x}}{{/lambda}}>", &ctx), Ok("<yes>".to_string()));
}
