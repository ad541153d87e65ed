//! The parser of the log's markup, and the tree it returns.

use vstd::prelude::*;
use html2md_rs::parser::ParseHTMLError;
use html2md_rs::structs::AttributeValues;
use html2md_rs::structs::Node;
use html2md_rs::structs::NodeType;
use crate::tree::AttrModel;
use crate::tree::AttrValue;
use crate::tree::Element;
use crate::tree::ElementModel;

verus! {

/// `html2md_rs::structs::Node`, a node of the tree that the parser returns.
#[verifier::external_type_specification]
#[verifier::external_body]
pub struct ExNode(html2md_rs::structs::Node);

/// `html2md_rs::parser::ParseHTMLError`, the parser's error.
#[verifier::external_type_specification]
#[verifier::external_body]
pub struct ExParseHTMLError(html2md_rs::parser::ParseHTMLError);

/// What a node of the parser's tree holds.
pub struct Markup {
    /// The name of an element that is not one of HTML's; the parser writes
    /// it in lower case.
    pub tag: Option<Seq<char>>,
    /// The text of a text node or of a comment.
    pub value: Option<Seq<char>>,
    /// The element's attributes by their names.
    pub attributes: Map<Seq<char>, AttrModel>,
    /// The nodes inside this one, in the order of the source.
    pub children: Seq<Markup>,
}

/// What `node` holds.
pub uninterp spec fn node_content(node: Node) -> Markup;

/// Reads the field `tag_name` of a `Node`. Claims that the result is the
/// name inside `NodeType::Unknown`, and `None` for every other tag and for a
/// node without one.
#[verifier::external_body]
fn custom_tag(node: &Node) -> (tag: Option<String>)
    ensures
        crate::tree::text_model(tag) == node_content(*node).tag,
{
    match &node.tag_name {
        Some(NodeType::Unknown(name)) => Some(name.clone()),
        _ => None,
    }
}

/// Reads the field `value` of a `Node`. Claims that the result is a copy of
/// it.
#[verifier::external_body]
fn text_value(node: &Node) -> (value: Option<String>)
    ensures
        crate::tree::text_model(value) == node_content(*node).value,
{
    node.value.clone()
}

/// Calls `Attributes::get` on the field `attributes` of a `Node`. Claims
/// that the result is the value held under `key`, and `None` where the node
/// has no attributes or none of that name.
#[verifier::external_body]
fn attribute(node: &Node, key: &str) -> (found: Option<AttrValue>)
    ensures
        crate::tree::attr_model(found) == (if node_content(*node).attributes.contains_key(key@) {
            Some(node_content(*node).attributes[key@])
        } else {
            None
        }),
{
    let found = match &node.attributes {
        Some(attributes) => attributes.get(key),
        None => None,
    };
    match found {
        Some(AttributeValues::String(text)) => Some(AttrValue::Text(text)),
        Some(AttributeValues::Bool(flag)) => Some(AttrValue::Flag(flag)),
        Some(AttributeValues::Number(number)) => Some(AttrValue::Number(number)),
        None => None,
    }
}

/// Reads the field `children` of a `Node`. Claims that the result holds the
/// node's children in their order.
#[verifier::external_body]
fn children(node: &Node) -> (nodes: &Vec<Node>)
    ensures
        nodes@.len() == node_content(*node).children.len(),
        forall|i: int|
            0 <= i < nodes@.len() ==> node_content(#[trigger] nodes@[i]) == node_content(
                *node,
            ).children[i],
{
    &node.children
}

/// Whether the nine characters of `s` from `i` on spell `<!DOCTYPE`.
pub open spec fn doctype_at(s: Seq<char>, i: int) -> bool {
    &&& 0 <= i
    &&& i + 9 <= s.len()
    &&& s[i] == '<'
    &&& s[i + 1] == '!'
    &&& s[i + 2] == 'D'
    &&& s[i + 3] == 'O'
    &&& s[i + 4] == 'C'
    &&& s[i + 5] == 'T'
    &&& s[i + 6] == 'Y'
    &&& s[i + 7] == 'P'
    &&& s[i + 8] == 'E'
}

/// Whether a `>` stands somewhere in `s` behind the place `i`.
pub open spec fn closed_behind(s: Seq<char>, i: int) -> bool {
    exists|j: int| i < j < s.len() && s[j] == '>'
}

/// Whether every `<!DOCTYPE` in `s` has a `>` behind it.
pub open spec fn doctypes_closed(s: Seq<char>) -> bool {
    forall|i: int| doctype_at(s, i) ==> closed_behind(s, i)
}

/// Whether `c` is one of the two quotes.
pub open spec fn is_quote(c: char) -> bool {
    c == '"' || c == '\''
}

/// The quotes that `s[from..to]` leaves open, the innermost last: a quote
/// closes the same quote where that is the innermost, else it opens.
pub open spec fn open_quotes(s: Seq<char>, from: int, to: int) -> Seq<char>
    decreases to - from,
{
    if to <= from {
        Seq::empty()
    } else {
        let before = open_quotes(s, from, to - 1);
        let c = s[to - 1];
        if !is_quote(c) {
            before
        } else if before.len() > 0 && before.last() == c {
            before.drop_last()
        } else {
            before.push(c)
        }
    }
}

/// Whether a tag may open at `i`: a `<` stands there, and no `!` behind it.
pub open spec fn tag_opens_at(s: Seq<char>, i: int) -> bool {
    &&& 0 <= i < s.len()
    &&& s[i] == '<'
    &&& !(i + 1 < s.len() && s[i + 1] == '!')
}

/// Whether `s[j]` is a `>` behind `i` before which no quote is open.
pub open spec fn may_close_at(s: Seq<char>, i: int, j: int) -> bool {
    &&& i < j < s.len()
    &&& s[j] == '>'
    &&& open_quotes(s, i, j).len() == 0
}

/// Whether the tag that opens at `i` closes at `j`: `s[j]` is the first `>`
/// behind `i` before which no quote is open.
pub open spec fn tag_closes_at(s: Seq<char>, i: int, j: int) -> bool {
    &&& may_close_at(s, i, j)
    &&& forall|m: int| i < m < j ==> !may_close_at(s, i, m)
}

/// Whether `s[i..=j]` is ASCII.
pub open spec fn plain_between(s: Seq<char>, i: int, j: int) -> bool {
    forall|k: int| i <= k <= j ==> #[trigger] s[k] <= '\u{7f}'
}

/// Whether the tag that opens at `i` is ASCII up to the `>` that closes it.
/// It is where nothing closes it.
pub open spec fn tag_is_plain(s: Seq<char>, i: int) -> bool {
    forall|j: int| #[trigger] tag_closes_at(s, i, j) ==> plain_between(s, i, j)
}

/// The inputs that the parser can be given: a `>` behind every `<!DOCTYPE`,
/// and every tag ASCII from its `<` to its `>`. Text, comments and what a
/// DOCTYPE holds may be of any characters. On other inputs the parser may
/// stop the program.
pub open spec fn parser_accepts(s: Seq<char>) -> bool {
    &&& doctypes_closed(s)
    &&& forall|i: int| #[trigger] tag_opens_at(s, i) ==> tag_is_plain(s, i)
}

/// Whether every `<!DOCTYPE` in `chars` has a `>` behind it.
fn check_doctypes(chars: &Vec<char>) -> (ok: bool)
    ensures
        ok == doctypes_closed(chars@),
{
    let ghost s = chars@;
    let mut i: usize = chars.len();
    let mut closed = false;
    while i > 0
        invariant
            i <= chars@.len(),
            s == chars@,
            closed == closed_behind(s, i as int - 1),
            forall|k: int| i <= k && doctype_at(s, k) ==> closed_behind(s, k),
        decreases i,
    {
        i = i - 1;
        let opens = chars.len() - i >= 9 && chars[i] == '<' && chars[i + 1] == '!' && chars[i + 2]
            == 'D' && chars[i + 3] == 'O' && chars[i + 4] == 'C' && chars[i + 5] == 'T' && chars[i
            + 6] == 'Y' && chars[i + 7] == 'P' && chars[i + 8] == 'E';
        if opens && !closed {
            assert(doctype_at(s, i as int));
            return false;
        }
        closed = closed || chars[i] == '>';
        proof {
            let at = i as int;
            if closed_behind(s, at) {
                let j = choose|j: int| at < j < s.len() && s[j] == '>';
                assert(at - 1 < j < s.len() && s[j] == '>');
            }
            if closed_behind(s, at - 1) {
                let j = choose|j: int| at - 1 < j < s.len() && s[j] == '>';
                if j != at {
                    assert(at < j < s.len() && s[j] == '>');
                }
            }
            if s[at] == '>' {
                assert(at - 1 < at < s.len() && s[at] == '>');
            }
        }
    }
    true
}

/// Whether the tag that opens at `i` is ASCII up to the `>` that closes it.
fn check_tag(chars: &Vec<char>, i: usize) -> (ok: bool)
    requires
        i < chars@.len(),
        chars@[i as int] == '<',
    ensures
        ok == tag_is_plain(chars@, i as int),
{
    let ghost s = chars@;
    let mut quotes: Vec<char> = Vec::new();
    let mut plain = true;
    let len = chars.len();
    let mut m: usize = i + 1;
    assert(open_quotes(s, i as int, i as int + 1) =~= Seq::<char>::empty()) by {
        assert(open_quotes(s, i as int, i as int) =~= Seq::<char>::empty());
    }
    while m < len
        invariant
            i < m <= chars@.len(),
            len == chars@.len(),
            s == chars@,
            s[i as int] == '<',
            quotes@ == open_quotes(s, i as int, m as int),
            plain == plain_between(s, i as int, m as int - 1),
            forall|k: int| i < k < m ==> !may_close_at(s, i as int, k),
        decreases chars@.len() - m,
    {
        let c = chars[m];
        let ghost before = plain;
        plain = plain && c <= '\u{7f}';
        proof {
            if before && c <= '\u{7f}' {
                assert forall|k: int| i <= k <= m implies #[trigger] s[k] <= '\u{7f}' by {
                    if k < m {
                        assert(plain_between(s, i as int, m as int - 1));
                    }
                }
            } else if before {
                assert(!(s[m as int] <= '\u{7f}'));
            } else {
                assert(!plain_between(s, i as int, m as int - 1));
                if plain_between(s, i as int, m as int) {
                    assert forall|k: int| i <= k <= m - 1 implies #[trigger] s[k] <= '\u{7f}' by {}
                }
            }
            assert(plain == plain_between(s, i as int, m as int));
        }
        if c == '>' && quotes.len() == 0 {
            proof {
                assert(tag_closes_at(s, i as int, m as int));
                assert forall|j: int| #[trigger] tag_closes_at(s, i as int, j) implies j == m by {
                    if j > m {
                        assert(may_close_at(s, i as int, m as int));
                    }
                }
            }
            return plain;
        }
        if c == '"' || c == '\'' {
            let n = quotes.len();
            if n > 0 && quotes[n - 1] == c {
                quotes.pop();
            } else {
                quotes.push(c);
            }
        }
        assert(quotes@ =~= open_quotes(s, i as int, m as int + 1));
        m = m + 1;
    }
    true
}

/// Whether the parser can be given `input`.
pub fn can_parse(input: &str) -> (ok: bool)
    ensures
        ok == parser_accepts(input@),
{
    let chars = crate::text::chars_of(input);
    if !check_doctypes(&chars) {
        return false;
    }
    let ghost s = chars@;
    let mut i: usize = 0;
    while i < chars.len()
        invariant
            i <= chars@.len(),
            s == chars@,
            s == input@,
            doctypes_closed(s),
            forall|k: int| 0 <= k < i && #[trigger] tag_opens_at(s, k) ==> tag_is_plain(s, k),
        decreases chars@.len() - i,
    {
        if chars[i] == '<' && !(i + 1 < chars.len() && chars[i + 1] == '!') {
            if !check_tag(&chars, i) {
                assert(tag_opens_at(s, i as int));
                return false;
            }
        }
        i = i + 1;
    }
    true
}

/// The tree that the parser makes of `input`, and `None` where it reports
/// an error.
pub uninterp spec fn parse_outcome(input: Seq<char>) -> Option<Markup>;

/// Calls `html2md_rs::parser::safe_parse_html`. Claims that what it returns
/// depends on the input alone, and that it returns on every input that
/// [`parser_accepts`] admits.
///
/// The second claim rests on these places of `safe_parse_html` in
/// `parser.rs`, the only ones where it can stop the program:
/// - line 138, the `unwrap` of the search for `>` behind `<!DOCTYPE`, which
///   the first clause of [`parser_accepts`] covers;
/// - lines 177 to 188, where the place of the closing `>`, counted in bytes
///   by `find_closing_bracket_index`, is used to count characters, and the
///   tag is then cut at the result: the two counts agree where the tag is
///   ASCII from its `<` to that `>`, which the second clause covers;
/// - lines 133, 271 and 281, where the input is cut behind the tag: at the
///   byte behind a `>`, where the tag is ASCII.
/// A tag is looked for only at a `<` with no `!` behind it; text, comments
/// and DOCTYPE are cut where a search found an ASCII character.
#[verifier::external_body]
fn parse_markup(input: String) -> (parsed: Result<Node, ParseHTMLError>)
    requires
        parser_accepts(input@),
    ensures
        match parsed {
            Ok(root) => parse_outcome(input@) == Some(node_content(root)),
            Err(_) => parse_outcome(input@) is None,
        },
{
    html2md_rs::parser::safe_parse_html(input)
}

/// The attribute of `markup` under `key`, if it has one.
pub open spec fn attribute_of(markup: Markup, key: Seq<char>) -> Option<AttrModel> {
    if markup.attributes.contains_key(key) {
        Some(markup.attributes[key])
    } else {
        None
    }
}

/// What a report reads of `markup`: the names, the texts, the attributes
/// `Name` and `SystemTime`, and the same of every node inside it.
pub open spec fn log_element(markup: Markup) -> ElementModel
    decreases markup,
{
    ElementModel {
        tag: markup.tag,
        value: markup.value,
        name: attribute_of(markup, "Name"@),
        system_time: attribute_of(markup, "SystemTime"@),
        children: Seq::new(
            markup.children.len(),
            |i: int|
                if 0 <= i < markup.children.len() {
                    log_element(markup.children[i])
                } else {
                    arbitrary()
                },
        ),
    }
}

/// Copies out of the parser's tree what a report reads.
pub fn element_of(node: &Node) -> (element: Element)
    ensures
        element@ == log_element(node_content(*node)),
    decreases node_content(*node),
{
    let nodes = children(node);
    let mut elements: Vec<Element> = Vec::new();
    let mut i: usize = 0;
    while i < nodes.len()
        invariant
            i <= nodes@.len(),
            nodes@.len() == node_content(*node).children.len(),
            forall|k: int|
                0 <= k < nodes@.len() ==> node_content(#[trigger] nodes@[k]) == node_content(
                    *node,
                ).children[k],
            elements@.len() == i,
            forall|k: int|
                0 <= k < i ==> (#[trigger] elements@[k])@ == log_element(
                    node_content(*node).children[k],
                ),
        decreases nodes@.len() - i,
    {
        let child = element_of(&nodes[i]);
        elements.push(child);
        i = i + 1;
    }
    let element = Element {
        tag: custom_tag(node),
        value: text_value(node),
        name: attribute(node, "Name"),
        system_time: attribute(node, "SystemTime"),
        children: elements,
    };
    assert(element@.children =~= log_element(node_content(*node)).children);
    element
}

/// Why a log could not be read.
#[derive(Debug, Clone, Copy, PartialEq, Eq, Structural)]
pub enum ParseFailure {
    /// The parser cannot be given the input: see [`parser_accepts`].
    Unsupported,
    /// The parser found a malformed tag or attribute.
    Malformed,
}

/// What [`parse_log`] returns on `input`.
pub open spec fn parsed_log(input: Seq<char>) -> Result<ElementModel, ParseFailure> {
    if !parser_accepts(input) {
        Err(ParseFailure::Unsupported)
    } else {
        match parse_outcome(input) {
            Some(markup) => Ok(log_element(markup)),
            None => Err(ParseFailure::Malformed),
        }
    }
}

/// Parses the text of a log into its tree of elements.
pub fn parse_log(input: String) -> (log: Result<Element, ParseFailure>)
    ensures
        match log {
            Ok(root) => parsed_log(input@) == Ok::<ElementModel, ParseFailure>(root@),
            Err(failure) => parsed_log(input@) == Err::<ElementModel, ParseFailure>(failure),
        },
{
    if !can_parse(input.as_str()) {
        return Err(ParseFailure::Unsupported);
    }
    match parse_markup(input) {
        Ok(root) => Ok(element_of(&root)),
        Err(_) => Err(ParseFailure::Malformed),
    }
}

} // verus!
