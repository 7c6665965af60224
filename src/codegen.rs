//! JavaScript declarations annotated with JSDoc types.
use vstd::prelude::*;
use vstd::string::StringExecFns;

verus! {

/// A JavaScript variable declaration.
pub struct Variable {
    pub declaration: Declaration,
    pub typ: Type,
    pub name: String,
    pub value: String,
}

/// The JavaScript types a JSDoc annotation can name.
#[derive(Debug, Clone, Copy, PartialEq, Eq)]
pub enum Type {
    String,
    Number,
    Bigint,
    Boolean,
    Undefined,
    Null,
    Symbol,
    Object,
}

/// The keyword a variable is declared with.
#[derive(Debug, Clone, Copy, PartialEq, Eq)]
pub enum Declaration {
    Const,
    Let,
    Var,
}

pub open spec fn js_type_name(t: Type) -> Seq<char> {
    match t {
        Type::String => "string"@,
        Type::Number => "number"@,
        Type::Bigint => "bigint"@,
        Type::Boolean => "boolean"@,
        Type::Undefined => "undefined"@,
        Type::Null => "null"@,
        Type::Symbol => "symbol"@,
        Type::Object => "object"@,
    }
}

pub open spec fn keyword(d: Declaration) -> Seq<char> {
    match d {
        Declaration::Const => "const"@,
        Declaration::Let => "let"@,
        Declaration::Var => "var"@,
    }
}

pub open spec fn jsdoc_of(t: Type) -> Seq<char> {
    "/** @type {"@ + js_type_name(t) + "} */"@
}

pub open spec fn declaration_of(d: Declaration, name: Seq<char>, value: Seq<char>) -> Seq<char> {
    keyword(d) + " "@ + name + " = "@ + value + ";"@
}

impl Type {
    /// The type's name as JSDoc writes it.
    pub fn as_str(&self) -> (r: &'static str)
        ensures
            r@ == js_type_name(*self),
    {
        match self {
            Type::String => "string",
            Type::Number => "number",
            Type::Bigint => "bigint",
            Type::Boolean => "boolean",
            Type::Undefined => "undefined",
            Type::Null => "null",
            Type::Symbol => "symbol",
            Type::Object => "object",
        }
    }

    /// The JSDoc comment that gives a variable this type.
    pub fn to_jsdoc(&self) -> (r: String)
        ensures
            r@ == jsdoc_of(*self),
    {
        let s = String::from_str("/** @type {");
        let s = s.concat(self.as_str());
        s.concat("} */")
    }
}

impl Declaration {
    /// The declaration keyword.
    pub fn as_str(&self) -> (r: &'static str)
        ensures
            r@ == keyword(*self),
    {
        match self {
            Declaration::Const => "const",
            Declaration::Let => "let",
            Declaration::Var => "var",
        }
    }
}

impl Variable {
    /// The declaration statement, such as `let x = 3;`.
    pub fn to_js(&self) -> (r: String)
        ensures
            r@ == declaration_of(self.declaration, self.name@, self.value@),
    {
        let s = String::from_str(self.declaration.as_str());
        let s = s.concat(" ");
        let s = s.concat(self.name.as_str());
        let s = s.concat(" = ");
        let s = s.concat(self.value.as_str());
        s.concat(";")
    }

    /// The declaration statement preceded by the JSDoc line for its type.
    pub fn with_jsdoc(&self) -> (r: String)
        ensures
            r@ == jsdoc_of(self.typ) + "\n"@ + declaration_of(self.declaration, self.name@, self.value@),
    {
        let s = self.typ.to_jsdoc();
        let s = s.concat("\n");
        let d = self.to_js();
        s.concat(d.as_str())
    }
}

} // verus!
