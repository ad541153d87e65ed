//! The parsed log as a tree of elements.

use vstd::prelude::*;

verus! {

/// The value of an attribute.
#[derive(Debug, Clone, PartialEq, Eq)]
pub enum AttrValue {
    /// A value written after `=`.
    Text(String),
    /// An attribute written without a value.
    Flag(bool),
    /// A number.
    Number(i32),
}

/// What an [`AttrValue`] holds.
pub enum AttrModel {
    Text(Seq<char>),
    Flag(bool),
    Number(int),
}

impl View for AttrValue {
    type V = AttrModel;

    open spec fn view(&self) -> AttrModel {
        match self {
            AttrValue::Text(s) => AttrModel::Text(s@),
            AttrValue::Flag(b) => AttrModel::Flag(*b),
            AttrValue::Number(n) => AttrModel::Number(*n as int),
        }
    }
}

/// One element of the log, with what a report reads of it.
#[derive(Debug, PartialEq, Eq)]
pub struct Element {
    /// The element's name in lower case. `None` for text, for a comment, for
    /// an element of HTML and for the node that stands for several roots.
    pub tag: Option<String>,
    /// The text of a text node or of a comment.
    pub value: Option<String>,
    /// The attribute `Name`.
    pub name: Option<AttrValue>,
    /// The attribute `SystemTime`.
    pub system_time: Option<AttrValue>,
    /// The elements inside this one, in the order of the log.
    pub children: Vec<Element>,
}

/// What an [`Element`] holds.
pub struct ElementModel {
    pub tag: Option<Seq<char>>,
    pub value: Option<Seq<char>>,
    pub name: Option<AttrModel>,
    pub system_time: Option<AttrModel>,
    pub children: Seq<ElementModel>,
}

/// The view of an optional string.
pub open spec fn text_model(s: Option<String>) -> Option<Seq<char>> {
    match s {
        Some(s) => Some(s@),
        None => None,
    }
}

/// The view of an optional attribute value.
pub open spec fn attr_model(a: Option<AttrValue>) -> Option<AttrModel> {
    match a {
        Some(a) => Some(a@),
        None => None,
    }
}

/// What `e` holds, as a value of mathematics.
pub open spec fn model_of(e: Element) -> ElementModel
    decreases e,
{
    ElementModel {
        tag: text_model(e.tag),
        value: text_model(e.value),
        name: attr_model(e.name),
        system_time: attr_model(e.system_time),
        children: Seq::new(
            e.children@.len(),
            |i: int|
                if 0 <= i < e.children@.len() {
                    model_of(e.children@[i])
                } else {
                    arbitrary()
                },
        ),
    }
}

impl View for Element {
    type V = ElementModel;

    open spec fn view(&self) -> ElementModel {
        model_of(*self)
    }
}

/// The views of `elements`, in order.
pub open spec fn models(elements: Seq<Element>) -> Seq<ElementModel> {
    elements.map_values(|e: Element| e@)
}

/// An element's model holds the models of its children.
pub proof fn lemma_children_models(e: Element)
    ensures
        e@.children == models(e.children@),
{
    assert(e@.children.len() == e.children@.len());
    assert forall|i: int| 0 <= i < e.children@.len() implies e@.children[i] == models(
        e.children@,
    )[i] by {
        assert(e@.children[i] == e.children@[i]@);
    }
    assert(e@.children =~= models(e.children@));
}

/// The text that an attribute value is written as: a text as it is, a
/// flag as `true` or `false`, a number in decimal.
pub open spec fn rendering(value: AttrModel) -> Seq<char> {
    match value {
        AttrModel::Text(text) => text,
        AttrModel::Flag(flag) => if flag {
            seq!['t', 'r', 'u', 'e']
        } else {
            seq!['f', 'a', 'l', 's', 'e']
        },
        AttrModel::Number(number) => crate::number::signed_text(number),
    }
}

impl AttrValue {
    /// The value as text.
    pub fn rendered(&self) -> (text: String)
        ensures
            text@ == rendering(self@),
    {
        match self {
            AttrValue::Text(text) => text.clone(),
            AttrValue::Flag(flag) => {
                let mut text = String::new();
                if *flag {
                    text.push('t');
                    text.push('r');
                    text.push('u');
                    text.push('e');
                } else {
                    text.push('f');
                    text.push('a');
                    text.push('l');
                    text.push('s');
                    text.push('e');
                }
                assert(text@ =~= rendering(self@));
                text
            },
            AttrValue::Number(number) => crate::number::signed_decimal(*number),
        }
    }

    /// Whether the value is the text `text`.
    pub fn is_text(&self, text: &String) -> (same: bool)
        ensures
            same == (self@ == AttrModel::Text(text@)),
    {
        match self {
            AttrValue::Text(own) => *own == *text,
            _ => false,
        }
    }
}

/// Whether `element` has the tag `tag`.
pub open spec fn has_tag(element: ElementModel, tag: Seq<char>) -> bool {
    element.tag == Some(tag)
}

/// Whether the attribute `Name` of `element` is the text `name`.
pub open spec fn has_name(element: ElementModel, name: Seq<char>) -> bool {
    element.name == Some(AttrModel::Text(name))
}

/// The place of the first of `elements` that has the tag `tag`.
pub open spec fn first_tagged(elements: Seq<ElementModel>, tag: Seq<char>) -> Option<int> {
    first_where(elements, |e: ElementModel| has_tag(e, tag))
}

/// The place of the first of `elements` whose attribute `Name` is the text
/// `name`.
pub open spec fn first_named(elements: Seq<ElementModel>, name: Seq<char>) -> Option<int> {
    first_where(elements, |e: ElementModel| has_name(e, name))
}

/// The least place of `elements` at which `wanted` holds.
pub open spec fn first_where(
    elements: Seq<ElementModel>,
    wanted: spec_fn(ElementModel) -> bool,
) -> Option<int>
    decreases elements.len(),
{
    if elements.len() == 0 {
        None
    } else {
        match first_where(elements.drop_last(), wanted) {
            Some(i) => Some(i),
            None => if wanted(elements.last()) {
                Some(elements.len() - 1)
            } else {
                None
            },
        }
    }
}

/// `first_where` gives a place at which `wanted` holds and before which it
/// does not, or `None` where it holds nowhere.
pub proof fn lemma_first_where(elements: Seq<ElementModel>, wanted: spec_fn(ElementModel) -> bool)
    ensures
        match first_where(elements, wanted) {
            Some(i) => 0 <= i < elements.len() && wanted(elements[i]) && forall|j: int|
                0 <= j < i ==> !#[trigger] wanted(elements[j]),
            None => forall|j: int| 0 <= j < elements.len() ==> !#[trigger] wanted(elements[j]),
        },
    decreases elements.len(),
{
    if elements.len() > 0 {
        let front = elements.drop_last();
        lemma_first_where(front, wanted);
        assert forall|j: int| 0 <= j < front.len() implies front[j] == elements[j] by {}
        match first_where(front, wanted) {
            Some(i) => {
                assert(front[i] == elements[i]);
                assert forall|j: int| 0 <= j < i implies !#[trigger] wanted(elements[j]) by {
                    assert(front[j] == elements[j]);
                }
            },
            None => {
                assert forall|j: int| 0 <= j < front.len() implies !#[trigger] wanted(
                    elements[j],
                ) by {
                    assert(front[j] == elements[j]);
                }
            },
        }
    }
}

/// The first place at which `wanted` holds is what `first_where` gives.
pub proof fn lemma_first_where_is(
    elements: Seq<ElementModel>,
    wanted: spec_fn(ElementModel) -> bool,
    i: int,
)
    requires
        0 <= i <= elements.len(),
        i < elements.len() ==> wanted(elements[i]),
        forall|j: int| 0 <= j < i ==> !#[trigger] wanted(elements[j]),
    ensures
        first_where(elements, wanted) == (if i < elements.len() {
            Some(i)
        } else {
            None
        }),
{
    lemma_first_where(elements, wanted);
}

impl Element {
    /// The place of the first child that has the tag `tag`.
    pub fn child_with_tag(&self, tag: &str) -> (place: Option<usize>)
        ensures
            match place {
                Some(i) => first_tagged(self@.children, tag@) == Some(i as int) && i
                    < self.children@.len(),
                None => first_tagged(self@.children, tag@) is None,
            },
    {
        let wanted = tag.to_owned();
        proof {
            lemma_children_models(*self);
        }
        let mut i: usize = 0;
        while i < self.children.len()
            invariant
                i <= self.children@.len(),
                wanted@ == tag@,
                self@.children == models(self.children@),
                forall|j: int| 0 <= j < i ==> !has_tag(#[trigger] self@.children[j], tag@),
            decreases self.children@.len() - i,
        {
            let found = match &self.children[i].tag {
                Some(own) => *own == wanted,
                None => false,
            };
            assert(self@.children[i as int] == self.children@[i as int]@);
            if found {
                proof {
                    lemma_first_where_is(
                        self@.children,
                        |e: ElementModel| has_tag(e, tag@),
                        i as int,
                    );
                }
                return Some(i);
            }
            i = i + 1;
        }
        proof {
            lemma_first_where_is(self@.children, |e: ElementModel| has_tag(e, tag@), i as int);
        }
        None
    }

    /// The place of the first child whose attribute `Name` is the text
    /// `name`.
    pub fn child_named(&self, name: &str) -> (place: Option<usize>)
        ensures
            match place {
                Some(i) => first_named(self@.children, name@) == Some(i as int) && i
                    < self.children@.len(),
                None => first_named(self@.children, name@) is None,
            },
    {
        let wanted = name.to_owned();
        proof {
            lemma_children_models(*self);
        }
        let mut i: usize = 0;
        while i < self.children.len()
            invariant
                i <= self.children@.len(),
                wanted@ == name@,
                self@.children == models(self.children@),
                forall|j: int| 0 <= j < i ==> !has_name(#[trigger] self@.children[j], name@),
            decreases self.children@.len() - i,
        {
            let found = match &self.children[i].name {
                Some(value) => value.is_text(&wanted),
                None => false,
            };
            assert(self@.children[i as int] == self.children@[i as int]@);
            if found {
                proof {
                    lemma_first_where_is(
                        self@.children,
                        |e: ElementModel| has_name(e, name@),
                        i as int,
                    );
                }
                return Some(i);
            }
            i = i + 1;
        }
        proof {
            lemma_first_where_is(self@.children, |e: ElementModel| has_name(e, name@), i as int);
        }
        None
    }
}

} // verus!
