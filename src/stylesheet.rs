//! The parsed form of CSS: rules in source order, each with selectors and
//! declarations.
use vstd::prelude::*;

verus! {

pub struct Stylesheet {
    pub rules: Vec<Rule>,
}

pub struct Rule {
    pub selectors: Vec<Selector>,
    pub declarations: Vec<Declaration>,
}

pub enum Selector {
    Simple(SimpleSelector),
}

pub struct SimpleSelector {
    pub tag_name: Option<String>,
    pub id: Option<String>,
    pub class: Vec<String>,
}

pub struct Declaration {
    pub name: String,
    pub value: String,
}

pub ghost struct SelectorV {
    pub tag: Option<Seq<char>>,
    pub id: Option<Seq<char>>,
    pub classes: Seq<Seq<char>>,
}

pub ghost struct DeclarationV {
    pub name: Seq<char>,
    pub value: Seq<char>,
}

pub ghost struct RuleV {
    pub selectors: Seq<SelectorV>,
    pub declarations: Seq<DeclarationV>,
}

pub open spec fn opt_view(o: Option<String>) -> Option<Seq<char>> {
    match o {
        Some(s) => Some(s@),
        None => None,
    }
}

pub open spec fn strings_view(v: Seq<String>) -> Seq<Seq<char>> {
    Seq::new(v.len(), |i: int| v[i]@)
}

impl SimpleSelector {
    pub open spec fn view(&self) -> SelectorV {
        SelectorV {
            tag: opt_view(self.tag_name),
            id: opt_view(self.id),
            classes: strings_view(self.class@),
        }
    }
}

impl Selector {
    pub open spec fn view(&self) -> SelectorV {
        match self {
            Selector::Simple(s) => s@,
        }
    }
}

impl Declaration {
    pub open spec fn view(&self) -> DeclarationV {
        DeclarationV { name: self.name@, value: self.value@ }
    }
}

pub open spec fn selectors_view(v: Seq<Selector>) -> Seq<SelectorV> {
    Seq::new(v.len(), |i: int| v[i]@)
}

pub open spec fn declarations_view(v: Seq<Declaration>) -> Seq<DeclarationV> {
    Seq::new(v.len(), |i: int| v[i]@)
}

impl Rule {
    pub open spec fn view(&self) -> RuleV {
        RuleV {
            selectors: selectors_view(self.selectors@),
            declarations: declarations_view(self.declarations@),
        }
    }
}

pub open spec fn rules_view(v: Seq<Rule>) -> Seq<RuleV> {
    Seq::new(v.len(), |i: int| v[i]@)
}

impl Stylesheet {
    pub open spec fn view(&self) -> Seq<RuleV> {
        rules_view(self.rules@)
    }
}

} // verus!
