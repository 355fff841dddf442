use vstd::prelude::*;
use crate::env::Env;
use crate::float::{ask_text, float_text, kernel_ok, FloatAnswer, FloatQuery};
use crate::number::{int_text, isize_text};
use crate::text::{chars_to_string, text_of};
use crate::token::{seq_view, Symbol, Token, TokenView};
use crate::value::Bindings;

verus! {

/// A class: a name, fields and methods. A method is a token that is
/// evaluated, with the fields and the call's arguments as its variables.
pub struct Class {
    pub name: String,
    pub fields: Env,
    pub methods: Env,
}

/// The model of a class.
pub struct ClassView {
    pub name: Seq<char>,
    pub fields: Bindings,
    pub methods: Bindings,
}

impl View for Class {
    type V = ClassView;

    open spec fn view(&self) -> ClassView {
        ClassView { name: self.name@, fields: self.fields@, methods: self.methods@ }
    }
}

/// The body of an arithmetic method of the class of `t`: `t`, the operator,
/// then the argument `rhs`.
pub open spec fn op_body(t: TokenView, op: Symbol) -> TokenView {
    TokenView::Block(seq![t, TokenView::Symbol(op), TokenView::Identifier("rhs"@)])
}

/// The methods of a number's class: its text under `!!format!!`, and the
/// four arithmetic methods.
pub open spec fn number_methods(t: TokenView, text: Seq<char>) -> Bindings {
    Map::empty()
        .insert("!!format!!"@, TokenView::String(text))
        .insert("!!add!!"@, op_body(t, Symbol::Plus))
        .insert("!!sub!!"@, op_body(t, Symbol::Minus))
        .insert("!!mul!!"@, op_body(t, Symbol::Multiply))
        .insert("!!div!!"@, op_body(t, Symbol::Divide))
}

/// The class that `change2class` makes of a value: integers and floats can
/// be formatted and take part in the four operations, strings can be
/// formatted and added to, booleans can be formatted; any other token gets
/// an empty class with an empty name.
pub open spec fn class_of<K: Fn(FloatQuery) -> FloatAnswer>(k: K, t: TokenView) -> ClassView {
    match t {
        TokenView::Integer(n) => ClassView {
            name: "Integer"@,
            fields: Map::empty(),
            methods: number_methods(t, int_text(n as int)),
        },
        TokenView::Float(f) => ClassView {
            name: "Float"@,
            fields: Map::empty(),
            methods: number_methods(t, float_text(k, f)),
        },
        TokenView::String(s) => ClassView {
            name: "String"@,
            fields: Map::empty(),
            methods: Map::empty()
                .insert("!!format!!"@, TokenView::String(s))
                .insert("!!add!!"@, op_body(t, Symbol::Plus)),
        },
        TokenView::Boolean(b) => ClassView {
            name: "Boolean"@,
            fields: Map::empty(),
            methods: Map::empty().insert(
                "!!format!!"@,
                TokenView::String(if b { "true"@ } else { "false"@ }),
            ),
        },
        _ => ClassView { name: ""@, fields: Map::empty(), methods: Map::empty() },
    }
}

impl Class {
    /// A class with the given name, fields and methods.
    pub fn new(name: String, fields: Env, methods: Env) -> (r: Class)
        ensures
            r@ == (ClassView { name: name@, fields: fields@, methods: methods@ }),
    {
        Class { name, fields, methods }
    }

    /// Binds a field, in place of what it was bound to.
    pub fn add_field(&mut self, name: String, value: Token)
        ensures
            final(self)@ == (ClassView { fields: old(self)@.fields.insert(name@, value@), ..old(self)@ }),
    {
        self.fields.insert(name, value);
    }

    /// The field of that name, if any.
    pub fn get_field(&self, name: String) -> (r: Option<&Token>)
        ensures
            match r {
                Some(t) => self@.fields.contains_key(name@) && t@ == self@.fields[name@],
                None => !self@.fields.contains_key(name@),
            },
    {
        self.fields.get(&name)
    }

    /// Binds a method, in place of what it was bound to.
    pub fn add_method(&mut self, name: String, function: Token)
        ensures
            final(self)@ == (ClassView { methods: old(self)@.methods.insert(name@, function@), ..old(self)@ }),
    {
        self.methods.insert(name, function);
    }
}

fn arith_method(t: &Token, op: Symbol) -> (r: Token)
    ensures
        r@ == op_body(t@, op),
{
    let body = vec![t.duplicate(), Token::Symbol(op), Token::Identifier(text_of("rhs"))];
    assert(seq_view(body@) =~= seq![t@, TokenView::Symbol(op), TokenView::Identifier("rhs"@)]);
    Token::Block(body)
}

fn number_class(name: &str, t: &Token, text: Vec<char>) -> (r: Class)
    ensures
        r@ == (ClassView { name: name@, fields: Map::empty(), methods: number_methods(t@, text@) }),
{
    let mut class = Class::new(text_of(name), Env::new(), Env::new());
    class.add_method(text_of("!!format!!"), Token::String(chars_to_string(&text)));
    class.add_method(text_of("!!add!!"), arith_method(t, Symbol::Plus));
    class.add_method(text_of("!!sub!!"), arith_method(t, Symbol::Minus));
    class.add_method(text_of("!!mul!!"), arith_method(t, Symbol::Multiply));
    class.add_method(text_of("!!div!!"), arith_method(t, Symbol::Divide));
    class
}

impl Token {
    /// The class of the value, as `class_of` says.
    pub fn change2class<K: Fn(FloatQuery) -> FloatAnswer>(&self, floats: &K) -> (r: Class)
        requires
            kernel_ok(*floats),
        ensures
            r@ == class_of(*floats, self@),
    {
        match self {
            Token::Integer(n) => number_class("Integer", self, isize_text(*n)),
            Token::Float(f) => number_class("Float", self, ask_text(floats, *f)),
            Token::String(s) => {
                let mut class = Class::new(text_of("String"), Env::new(), Env::new());
                class.add_method(text_of("!!format!!"), Token::String(s.clone()));
                class.add_method(text_of("!!add!!"), arith_method(self, Symbol::Plus));
                class
            },
            Token::Boolean(b) => {
                let mut class = Class::new(text_of("Boolean"), Env::new(), Env::new());
                let text = if *b {
                    text_of("true")
                } else {
                    text_of("false")
                };
                class.add_method(text_of("!!format!!"), Token::String(text));
                class
            },
            _ => Class::new(text_of(""), Env::new(), Env::new()),
        }
    }
}

} // verus!
