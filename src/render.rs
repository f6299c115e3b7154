use crate::ast::ident_text;
use crate::ty::RepresentationalType;
use vstd::prelude::*;

verus! {

pub open spec fn digit_char(d: nat) -> char {
    if d == 0 {
        '0'
    } else if d == 1 {
        '1'
    } else if d == 2 {
        '2'
    } else if d == 3 {
        '3'
    } else if d == 4 {
        '4'
    } else if d == 5 {
        '5'
    } else if d == 6 {
        '6'
    } else if d == 7 {
        '7'
    } else if d == 8 {
        '8'
    } else {
        '9'
    }
}

/// The decimal digits of `n`.
pub open spec fn decimal(n: nat) -> Seq<char>
    decreases n,
{
    if n < 10 {
        seq![digit_char(n)]
    } else {
        decimal(n / 10) + seq![digit_char(n % 10)]
    }
}

/// The text of a representational type: `⊤`, `⊥`, `a ∪ b`, `a ∩ b`, `fn(a, b) -> r`,
/// `μ<#1>. (t)`, `<#1>`, `Primitive("Int")`, `Option.some`, and `()`, `(a,)` or `(a, b)`.
pub open spec fn render_text(t: RepresentationalType) -> Seq<char>
    decreases t,
{
    match t {
        RepresentationalType::Top => "⊤"@,
        RepresentationalType::Bot => "⊥"@,
        RepresentationalType::Union(l, r) => render_text(*l) + " ∪ "@ + render_text(*r),
        RepresentationalType::Inter(l, r) => render_text(*l) + " ∩ "@ + render_text(*r),
        RepresentationalType::Function(args, ret) => "fn("@ + render_list(args@) + ") -> "@ + render_text(*ret),
        RepresentationalType::Recursive(id, body) => "μ<#"@ + decimal(id as nat) + ">. ("@ + render_text(*body) + ")"@,
        RepresentationalType::Variable(id) => "<#"@ + decimal(id as nat) + ">"@,
        RepresentationalType::Primitive(name) => "Primitive(\""@ + name@ + "\")"@,
        RepresentationalType::VariantTag { root, variant } => ident_text(root) + "."@ + ident_text(variant),
        RepresentationalType::Tuple(elements) => if elements@.len() == 1 {
            "("@ + render_text(elements@[0]) + ",)"@
        } else {
            "("@ + render_list(elements@) + ")"@
        },
    }
}

/// The texts of `ts`, separated by `, `.
pub open spec fn render_list(ts: Seq<RepresentationalType>) -> Seq<char>
    decreases ts,
{
    if ts.len() == 0 {
        Seq::empty()
    } else if ts.len() == 1 {
        render_text(ts[0])
    } else {
        render_list(ts.drop_last()) + ", "@ + render_text(ts.last())
    }
}

fn push_digit(s: &mut String, d: usize)
    requires
        d < 10,
    ensures
        final(s)@ == old(s)@ + seq![digit_char(d as nat)],
{
    let text = if d == 0 {
        "0"
    } else if d == 1 {
        "1"
    } else if d == 2 {
        "2"
    } else if d == 3 {
        "3"
    } else if d == 4 {
        "4"
    } else if d == 5 {
        "5"
    } else if d == 6 {
        "6"
    } else if d == 7 {
        "7"
    } else if d == 8 {
        "8"
    } else {
        "9"
    };
    proof {
        reveal_strlit("0");
        reveal_strlit("1");
        reveal_strlit("2");
        reveal_strlit("3");
        reveal_strlit("4");
        reveal_strlit("5");
        reveal_strlit("6");
        reveal_strlit("7");
        reveal_strlit("8");
        reveal_strlit("9");
    }
    s.append(text);
    assert(s@ =~= old(s)@ + seq![digit_char(d as nat)]);
}

/// Appends the decimal digits of `n`.
pub fn push_decimal(s: &mut String, n: usize)
    ensures
        final(s)@ == old(s)@ + decimal(n as nat),
    decreases n,
{
    if n < 10 {
        push_digit(s, n);
    } else {
        push_decimal(s, n / 10);
        push_digit(s, n % 10);
        assert(final(s)@ =~= old(s)@ + decimal(n as nat)) by {
            assert(decimal(n as nat) == decimal((n / 10) as nat) + seq![digit_char((n % 10) as nat)]);
        }
    }
}

fn push_list(s: &mut String, ts: &Vec<RepresentationalType>)
    ensures
        final(s)@ == old(s)@ + render_list(ts@),
    decreases ts@,
{
    let mut i: usize = 0;
    while i < ts.len()
        invariant
            i <= ts@.len(),
            s@ == old(s)@ + render_list(ts@.subrange(0, i as int)),
        decreases ts@.len() - i,
    {
        if i > 0 {
            s.append(", ");
        }
        proof {
            assert(decreases_to!(ts@ => ts@[i as int]));
        }
        let part = ts[i].render();
        s.append(part.as_str());
        i = i + 1;
        proof {
            let sub = ts@.subrange(0, i as int);
            assert(sub.drop_last() =~= ts@.subrange(0, i - 1));
            assert(sub.last() == ts@[i - 1]);
        }
        assert(s@ =~= old(s)@ + render_list(ts@.subrange(0, i as int)));
    }
    assert(ts@.subrange(0, ts@.len() as int) =~= ts@);
}

impl RepresentationalType {
    /// The text of this type, as [`render_text`] gives it.
    pub fn render(&self) -> (r: String)
        ensures
            r@ == render_text(*self),
        decreases *self,
    {
        let mut s = String::new();
        match self {
            RepresentationalType::Top => {
                s.append("⊤");
            },
            RepresentationalType::Bot => {
                s.append("⊥");
            },
            RepresentationalType::Union(l, r) => {
                let a = l.render();
                let b = r.render();
                s.append(a.as_str());
                s.append(" ∪ ");
                s.append(b.as_str());
            },
            RepresentationalType::Inter(l, r) => {
                let a = l.render();
                let b = r.render();
                s.append(a.as_str());
                s.append(" ∩ ");
                s.append(b.as_str());
            },
            RepresentationalType::Function(args, ret) => {
                s.append("fn(");
                proof {
                    assert(decreases_to!(*self => *args));
                }
                push_list(&mut s, args);
                s.append(") -> ");
                let b = ret.render();
                s.append(b.as_str());
            },
            RepresentationalType::Recursive(id, body) => {
                s.append("μ<#");
                push_decimal(&mut s, *id);
                s.append(">. (");
                let b = body.render();
                s.append(b.as_str());
                s.append(")");
            },
            RepresentationalType::Variable(id) => {
                s.append("<#");
                push_decimal(&mut s, *id);
                s.append(">");
            },
            RepresentationalType::Primitive(name) => {
                s.append("Primitive(\"");
                s.append(name.as_str());
                s.append("\")");
            },
            RepresentationalType::VariantTag { root, variant } => {
                s.append(root.1.1.0.content.as_str());
                s.append(".");
                s.append(variant.1.1.0.content.as_str());
            },
            RepresentationalType::Tuple(elements) => {
                s.append("(");
                if elements.len() == 1 {
                    proof {
                        assert(decreases_to!(*self => elements@[0]));
                    }
                    let a = elements[0].render();
                    s.append(a.as_str());
                    s.append(",)");
                } else {
                    push_list(&mut s, elements);
                    s.append(")");
                }
            },
        }
        assert(s@ =~= render_text(*self));
        s
    }
}

} // verus!
