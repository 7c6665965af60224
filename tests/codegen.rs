use smartdata_browser::codegen::{Declaration, Type, Variable};

#[test]
fn create_var() {
    let javascript = "/** @type {number} */\nlet xd = 3;";

    let var = Variable {
        declaration: Declaration::Let,
        typ: Type::Number,
        name: "xd".to_string(),
        value: "3".to_string(),
    };

    assert_eq!(javascript, var.with_jsdoc());
}

#[test]
fn declaration_without_jsdoc() {
    let var = Variable {
        declaration: Declaration::Const,
        typ: Type::String,
        name: "greeting".to_string(),
        value: "\"hi\"".to_string(),
    };
    assert_eq!(var.to_js(), "const greeting = \"hi\";");
}

#[test]
fn jsdoc_names_every_type() {
    let all = [
        (Type::String, "string"),
        (Type::Number, "number"),
        (Type::Bigint, "bigint"),
        (Type::Boolean, "boolean"),
        (Type::Undefined, "undefined"),
        (Type::Null, "null"),
        (Type::Symbol, "symbol"),
        (Type::Object, "object"),
    ];
    for (t, name) in all {
        assert_eq!(t.to_jsdoc(), format!("/** @type {{{name}}} */"));
    }
    assert_eq!(Declaration::Var.as_str(), "var");
}
