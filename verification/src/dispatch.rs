//! The tag dispatcher: how every parser walks the children of the element it reads.
//!
//! A parser stands just behind the start tag of its element. It asks [`next_child`] for what
//! comes next: a child element, which it reads itself or passes over with [`skip_element`], or
//! the end tag of its own element. Text and other tokens between the children are passed over.

use vstd::prelude::*;
use vstd::string::StringExecFns;
use crate::error::{Failure, TiledError};
use crate::events::{views, Attribute, Token, TokenView};
use crate::text::text_is;

verus! {

/// What a parser meets next inside its element.
pub enum Step {
    /// A child element opens at index `at`.
    Child { at: int },
    /// The element closed; reading goes on at `next`.
    Closed { next: int },
    /// Neither can be had.
    Failed(Failure),
}

/// What [`next_child`] found.
#[derive(Debug, PartialEq, Eq, Clone, Copy)]
pub enum Found {
    /// A child element opens at index `at`.
    Child { at: usize },
    /// The element closed; reading goes on at `next`.
    Closed { next: usize },
}

/// The failure of an element that did not close where it should have.
pub open spec fn unfinished(parent: Seq<char>) -> Failure {
    Failure::PrematureEnd("Element not closed: "@ + parent)
}

/// The step from `pos` on, directly inside the element `parent`.
pub open spec fn child_step(ts: Seq<TokenView>, pos: int, parent: Seq<char>) -> Step
    decreases ts.len() - pos,
{
    if pos < 0 || pos >= ts.len() {
        Step::Failed(unfinished(parent))
    } else {
        match ts[pos] {
            TokenView::Start { .. } => Step::Child { at: pos },
            TokenView::End { name } => if name == parent {
                Step::Closed { next: pos + 1 }
            } else {
                Step::Failed(unfinished(parent))
            },
            TokenView::EndDocument => Step::Failed(unfinished(parent)),
            TokenView::Invalid(e) => Step::Failed(Failure::XmlDecodingError(e)),
            _ => child_step(ts, pos + 1, parent),
        }
    }
}

/// Where reading goes on once `depth` open elements have closed, counting start and end tags
/// from `pos` on and heeding nothing else.
pub open spec fn subtree_end(ts: Seq<TokenView>, pos: int, depth: nat, parent: Seq<char>) -> Result<
    int,
    Failure,
>
    decreases ts.len() - pos,
{
    if depth == 0 {
        Ok(pos)
    } else if pos < 0 || pos >= ts.len() {
        Err(unfinished(parent))
    } else {
        match ts[pos] {
            TokenView::Start { .. } => subtree_end(ts, pos + 1, depth + 1, parent),
            TokenView::End { .. } => subtree_end(ts, pos + 1, (depth - 1) as nat, parent),
            TokenView::EndDocument => Err(unfinished(parent)),
            TokenView::Invalid(e) => Err(Failure::XmlDecodingError(e)),
            _ => subtree_end(ts, pos + 1, depth, parent),
        }
    }
}

/// A child is found at or behind `pos`, and an end tag is consumed.
pub proof fn lemma_child_step(ts: Seq<TokenView>, pos: int, parent: Seq<char>)
    requires
        0 <= pos,
    ensures
        match child_step(ts, pos, parent) {
            Step::Child { at } => pos <= at < ts.len() && ts[at] is Start,
            Step::Closed { next } => pos < next <= ts.len(),
            Step::Failed(_) => true,
        },
    decreases ts.len() - pos,
{
    if pos < ts.len() {
        match ts[pos] {
            TokenView::Start { .. } => {},
            TokenView::End { .. } => {},
            TokenView::EndDocument => {},
            TokenView::Invalid(_) => {},
            _ => lemma_child_step(ts, pos + 1, parent),
        }
    }
}

/// Skipping goes forward, and stays within the tokens.
pub proof fn lemma_subtree_end(ts: Seq<TokenView>, pos: int, depth: nat, parent: Seq<char>)
    requires
        0 <= pos <= ts.len(),
    ensures
        match subtree_end(ts, pos, depth, parent) {
            Ok(next) => pos + depth <= next <= ts.len(),
            Err(_) => true,
        },
    decreases ts.len() - pos,
{
    if depth > 0 && pos < ts.len() {
        match ts[pos] {
            TokenView::Start { .. } => lemma_subtree_end(ts, pos + 1, depth + 1, parent),
            TokenView::End { .. } => lemma_subtree_end(ts, pos + 1, (depth - 1) as nat, parent),
            TokenView::EndDocument => {},
            TokenView::Invalid(_) => {},
            _ => lemma_subtree_end(ts, pos + 1, depth, parent),
        }
    }
}

/// Where reading goes on behind the end tag of the element `name`, all of whose children
/// from `pos` on are passed over.
pub open spec fn element_end(ts: Seq<TokenView>, pos: int, name: Seq<char>) -> Result<int, Failure>
    decreases ts.len() - pos,
{
    if pos < 0 {
        Err(unfinished(name))
    } else {
        match child_step(ts, pos, name) {
            Step::Failed(f) => Err(f),
            Step::Closed { next } => Ok(next),
            Step::Child { at } => match subtree_end(ts, at + 1, 1, name) {
                Err(f) => Err(f),
                Ok(next) => {
                    proof {
                        lemma_child_step(ts, pos, name);
                        lemma_subtree_end(ts, at + 1, 1, name);
                    }
                    element_end(ts, next, name)
                },
            },
        }
    }
}

/// The end of an element lies behind where its reading began.
pub proof fn lemma_element_end(ts: Seq<TokenView>, pos: int, name: Seq<char>)
    requires
        0 <= pos,
    ensures
        match element_end(ts, pos, name) {
            Ok(next) => pos < next <= ts.len(),
            Err(_) => true,
        },
    decreases ts.len() - pos,
{
    lemma_child_step(ts, pos, name);
    match child_step(ts, pos, name) {
        Step::Child { at } => {
            lemma_subtree_end(ts, at + 1, 1, name);
            match subtree_end(ts, at + 1, 1, name) {
                Ok(next) => lemma_element_end(ts, next, name),
                Err(_) => {},
            }
        },
        _ => {},
    }
}

/// What a result of [`next_child`] stands for.
pub open spec fn step_of(r: Result<Found, TiledError>) -> Step {
    match r {
        Ok(Found::Child { at }) => Step::Child { at: at as int },
        Ok(Found::Closed { next }) => Step::Closed { next: next as int },
        Err(e) => Step::Failed(e@),
    }
}

/// What a position or an error stands for.
pub open spec fn end_of(r: Result<usize, TiledError>) -> Result<int, Failure> {
    match r {
        Ok(next) => Ok(next as int),
        Err(e) => Err(e@),
    }
}

/// What the result of a parser stands for: the model of what it read and where reading goes
/// on, or the failure.
pub open spec fn outcome<T: View>(r: Result<(T, usize), TiledError>) -> Result<(T::V, int), Failure> {
    match r {
        Ok((value, next)) => Ok((value@, next as int)),
        Err(e) => Err(e@),
    }
}

/// The error of an element that did not close where it should have.
pub fn unfinished_error(parent: &str) -> (e: TiledError)
    ensures
        e@ == unfinished(parent@),
{
    TiledError::PrematureEnd("Element not closed: ".to_owned().concat(parent))
}

/// Finds the next child of the element `parent`, or its end, from `pos` on.
pub fn next_child(tokens: &Vec<Token>, pos: usize, parent: &str) -> (r: Result<Found, TiledError>)
    ensures
        step_of(r) == child_step(views(tokens@), pos as int, parent@),
        r matches Ok(Found::Child { at }) ==> pos <= at < tokens.len() && tokens[at as int] is Start,
        r matches Ok(Found::Closed { next }) ==> pos < next <= tokens.len(),
{
    let ghost ts = views(tokens@);
    let mut i: usize = pos;
    while i < tokens.len()
        invariant
            pos <= i,
            ts == views(tokens@),
            child_step(ts, pos as int, parent@) == child_step(ts, i as int, parent@),
        decreases tokens.len() - i,
    {
        assert(ts[i as int] == tokens@[i as int]@);
        match &tokens[i] {
            Token::Start { .. } => {
                return Ok(Found::Child { at: i });
            },
            Token::End { name } => {
                if text_is(name.as_str(), parent) {
                    return Ok(Found::Closed { next: i + 1 });
                } else {
                    return Err(unfinished_error(parent));
                }
            },
            Token::EndDocument => {
                return Err(unfinished_error(parent));
            },
            Token::Invalid(e) => {
                return Err(TiledError::XmlDecodingError(e.clone()));
            },
            _ => {},
        }
        i += 1;
    }
    Err(unfinished_error(parent))
}

/// Passes over the element that opens at `at`, children and all, inside the element `parent`.
pub fn skip_element(tokens: &Vec<Token>, at: usize, parent: &str) -> (r: Result<usize, TiledError>)
    requires
        at < tokens.len(),
    ensures
        end_of(r) == subtree_end(views(tokens@), at + 1, 1, parent@),
        r matches Ok(next) ==> at + 1 < next <= tokens.len(),
{
    let ghost ts = views(tokens@);
    let mut depth: usize = 1;
    let mut i: usize = at + 1;
    while depth > 0
        invariant
            at < i <= tokens.len(),
            depth <= i - at,
            depth == 0 ==> i > at + 1,
            ts == views(tokens@),
            subtree_end(ts, at + 1, 1, parent@) == subtree_end(ts, i as int, depth as nat, parent@),
        decreases tokens.len() - i,
    {
        if i >= tokens.len() {
            return Err(unfinished_error(parent));
        }
        assert(ts[i as int] == tokens@[i as int]@);
        match &tokens[i] {
            Token::Start { .. } => {
                depth += 1;
            },
            Token::End { .. } => {
                depth -= 1;
            },
            Token::EndDocument => {
                return Err(unfinished_error(parent));
            },
            Token::Invalid(e) => {
                return Err(TiledError::XmlDecodingError(e.clone()));
            },
            _ => {},
        }
        i += 1;
    }
    Ok(i)
}

/// Reads to the end of the element `name` from `pos` on, passing over its children.
pub fn finish_element(tokens: &Vec<Token>, pos: usize, name: &str) -> (r: Result<usize, TiledError>)
    ensures
        end_of(r) == element_end(views(tokens@), pos as int, name@),
        r matches Ok(next) ==> pos < next <= tokens.len(),
{
    let ghost ts = views(tokens@);
    let mut i: usize = pos;
    loop
        invariant
            pos <= i,
            ts == views(tokens@),
            element_end(ts, pos as int, name@) == element_end(ts, i as int, name@),
        decreases tokens.len() - i,
    {
        match next_child(tokens, i, name) {
            Err(e) => {
                return Err(e);
            },
            Ok(Found::Closed { next }) => {
                return Ok(next);
            },
            Ok(Found::Child { at }) => match skip_element(tokens, at, name) {
                Err(e) => {
                    return Err(e);
                },
                Ok(next) => {
                    i = next;
                },
            },
        }
    }
}

/// The attributes of the start tag at `at`.
pub fn start_attrs(tokens: &Vec<Token>, at: usize) -> (attrs: &Vec<Attribute>)
    requires
        at < tokens.len(),
        tokens[at as int] is Start,
    ensures
        views(attrs@) == views(tokens@)[at as int]->attrs,
{
    assert(views(tokens@)[at as int] == tokens@[at as int]@);
    match &tokens[at] {
        Token::Start { attrs, .. } => attrs,
        _ => vstd::pervasive::unreached(),
    }
}

/// The name of the start tag at `at`.
pub fn start_name(tokens: &Vec<Token>, at: usize) -> (name: &str)
    requires
        at < tokens.len(),
        tokens[at as int] is Start,
    ensures
        name@ == views(tokens@)[at as int]->Start_name,
{
    assert(views(tokens@)[at as int] == tokens@[at as int]@);
    match &tokens[at] {
        Token::Start { name, .. } => name.as_str(),
        _ => vstd::pervasive::unreached(),
    }
}

/// The character data at `pos`, if that is what stands there.
pub open spec fn text_at(ts: Seq<TokenView>, pos: int) -> Option<Seq<char>> {
    if 0 <= pos < ts.len() && ts[pos] is Text {
        Some(ts[pos]->Text_0)
    } else {
        None
    }
}

/// The character data at `pos`, if that is what stands there.
pub fn read_text(tokens: &Vec<Token>, pos: usize) -> (r: Option<&String>)
    ensures
        match r {
            Some(t) => text_at(views(tokens@), pos as int) == Some(t@),
            None => text_at(views(tokens@), pos as int) is None,
        },
        r is Some ==> pos < tokens.len(),
{
    if pos < tokens.len() {
        assert(views(tokens@)[pos as int] == tokens@[pos as int]@);
        match &tokens[pos] {
            Token::Text(t) => Some(t),
            _ => None,
        }
    } else {
        None
    }
}

} // verus!
