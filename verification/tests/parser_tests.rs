use vibe_coder::parser::RustParser;

#[test]
fn test_list_functions() {
    let code = r#"
            fn main() {
                println!("Hello");
            }

            fn add(a: i32, b: i32) -> i32 {
                a + b
            }
        "#;

    let parser = RustParser::new();
    let functions = parser.list_functions(code).unwrap();
    assert_eq!(functions.len(), 2);
}

#[test]
fn test_extract_function() {
    let code = r#"
            fn add(a: i32, b: i32) -> i32 {
                a + b
            }
        "#;

    let parser = RustParser::new();
    let func = parser.extract_function(code, "add").unwrap();
    assert!(func.contains("add"));
}

#[test]
fn test_list_functions_order() {
    let code = "fn top() {}\nstruct S;\nimpl S { fn m1(&self) {} fn m2(&self, x: i32) -> i32 { x } }";
    let parser = RustParser::new();
    let functions = parser.list_functions(code).unwrap();
    assert_eq!(functions.len(), 3);
    assert!(functions[0].starts_with("fn top("));
    assert!(functions[0].ends_with("-> ()"));
    assert!(functions[1].starts_with("impl S::m1("));
    assert!(functions[2].starts_with("impl S::m2("));
    assert!(functions[2].ends_with("-> i32"));
}

#[test]
fn test_list_structs_and_enums() {
    let code = "struct A;\nstruct B { x: u8 }\nenum E { One, Two }\nfn f() {}";
    let parser = RustParser::new();
    assert_eq!(parser.list_structs(code).unwrap(), vec!["A".to_string(), "B".to_string()]);
    assert_eq!(parser.list_enums(code).unwrap(), vec!["E { One, Two }".to_string()]);
}

#[test]
fn test_extract_function_method() {
    let code = "struct S;\nimpl S { fn helper(&self) -> u8 { 7 } }";
    let parser = RustParser::new();
    let found = parser.extract_function(code, "helper").unwrap();
    assert!(found.contains("helper"));
}

#[test]
fn test_extract_function_missing() {
    let code = "fn add(a: i32, b: i32) -> i32 { a + b }";
    let parser = RustParser::new();
    let e = parser.extract_function(code, "nope").unwrap_err();
    assert_eq!(e.message(), "Function 'nope' not found");
}

#[test]
fn test_grammar_error_reported() {
    let parser = RustParser::new();
    let e = parser.list_functions("fn {").unwrap_err();
    assert!(e.message().starts_with("Failed to parse Rust file: "));
}

#[test]
fn test_find_item_location() {
    let content = "struct Foo;\nfn bar() {}\nenum Baz { X }\n";
    let parser = RustParser::new();
    assert_eq!(parser.find_item_location(content, "bar").unwrap(), (2, 2));
    assert_eq!(parser.find_item_location(content, "Foo").unwrap(), (1, 1));
    assert_eq!(parser.find_item_location(content, "Baz").unwrap(), (3, 3));
    let e = parser.find_item_location(content, "missing").unwrap_err();
    assert_eq!(e.message(), "Item 'missing' not found");
}
