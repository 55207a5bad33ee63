//! The keys by which nodes of the last frame are found again.
//!
//! Two nodes may have the same key without being the same, so a candidate that is found by its key
//! is compared in full. A key need only spread well.

use crate::geometry::{Edges, Size};
use crate::style::{
    same_dimensions, same_sides, AlignContent, AlignItems, Display, FlexDirection, FlexWrap,
    Overflow, Position, TaffyLength, TaffyStyle,
};
use std::hash::BuildHasher;
use vstd::prelude::*;

verus! {

/// The hash of two numbers on a machine whose pointers have the given number of bits.
pub uninterp spec fn fx_pair(first: u64, second: u64, pointer_bits: nat) -> u64;

/// `rustc_hash::FxBuildHasher`, by `BuildHasher::hash_one`, on a pair: a number that depends on the
/// two numbers and on the width of a pointer alone.
#[verifier::external_body]
fn hash_pair(first: u64, second: u64) -> (r: u64)
    ensures
        r == fx_pair(first, second, usize::BITS as nat),
{
    rustc_hash::FxBuildHasher.hash_one((first, second))
}

/// A hash with one more number taken in.
pub open spec fn mixed(hash: u64, word: u64) -> u64 {
    fx_pair(hash, word, usize::BITS as nat)
}

fn mix(hash: u64, word: u64) -> (r: u64)
    ensures
        r == mixed(hash, word),
{
    hash_pair(hash, word)
}

// ---- lengths -----------------------------------------------------------------------------------

pub open spec fn length_tag(length: TaffyLength) -> u64 {
    match length {
        TaffyLength::Length(_) => 1,
        TaffyLength::Percent(_) => 2,
        TaffyLength::Auto => 3,
        TaffyLength::Fr(_) => 4,
        TaffyLength::MinContent => 7,
        TaffyLength::MaxContent => 15,
    }
}

pub open spec fn length_bits(length: TaffyLength) -> u64 {
    match length {
        TaffyLength::Length(bits) => bits as u64,
        TaffyLength::Percent(bits) => bits as u64,
        TaffyLength::Fr(bits) => bits as u64,
        _ => 0,
    }
}

pub open spec fn mixed_length(hash: u64, length: TaffyLength) -> u64 {
    mixed(mixed(hash, length_tag(length)), length_bits(length))
}

fn mix_length(hash: u64, length: TaffyLength) -> (r: u64)
    ensures
        r == mixed_length(hash, length),
{
    let (tag, bits): (u64, u64) = match length {
        TaffyLength::Length(bits) => (1, bits as u64),
        TaffyLength::Percent(bits) => (2, bits as u64),
        TaffyLength::Auto => (3, 0),
        TaffyLength::Fr(bits) => (4, bits as u64),
        TaffyLength::MinContent => (7, 0),
        TaffyLength::MaxContent => (15, 0),
    };
    mix(mix(hash, tag), bits)
}

pub open spec fn mixed_size(hash: u64, size: Size<TaffyLength>) -> u64 {
    mixed_length(mixed_length(hash, size.width), size.height)
}

fn mix_size(hash: u64, size: &Size<TaffyLength>) -> (r: u64)
    ensures
        r == mixed_size(hash, *size),
{
    mix_length(mix_length(hash, size.width), size.height)
}

pub open spec fn mixed_edges(hash: u64, edges: Edges<TaffyLength>) -> u64 {
    mixed_length(
        mixed_length(mixed_length(mixed_length(hash, edges.left), edges.right), edges.top),
        edges.bottom,
    )
}

fn mix_edges(hash: u64, edges: &Edges<TaffyLength>) -> (r: u64)
    ensures
        r == mixed_edges(hash, *edges),
{
    mix_length(
        mix_length(mix_length(mix_length(hash, edges.left), edges.right), edges.top),
        edges.bottom,
    )
}

// ---- choices -----------------------------------------------------------------------------------

pub open spec fn display_tag(display: Display) -> u64 {
    match display {
        Display::Block => 0,
        Display::Flex => 1,
        Display::Grid => 2,
        Display::Absent => 3,
    }
}

pub open spec fn position_tag(position: Position) -> u64 {
    match position {
        Position::Relative => 0,
        Position::Absolute => 1,
    }
}

pub open spec fn direction_tag(direction: FlexDirection) -> u64 {
    match direction {
        FlexDirection::Row => 0,
        FlexDirection::Column => 1,
        FlexDirection::RowReverse => 2,
        FlexDirection::ColumnReverse => 3,
    }
}

pub open spec fn wrap_tag(wrap: FlexWrap) -> u64 {
    match wrap {
        FlexWrap::NoWrap => 0,
        FlexWrap::Wrap => 1,
        FlexWrap::WrapReverse => 2,
    }
}

pub open spec fn overflow_tag(overflow: Overflow) -> u64 {
    match overflow {
        Overflow::Visible => 0,
        Overflow::Clip => 1,
        Overflow::Hidden => 2,
        Overflow::Scroll => 3,
    }
}

/// Of an alignment only whether it is given goes into a key.
pub open spec fn items_tag(alignment: Option<AlignItems>) -> u64 {
    if alignment is Some {
        1
    } else {
        0
    }
}

pub open spec fn content_tag(alignment: Option<AlignContent>) -> u64 {
    if alignment is Some {
        1
    } else {
        0
    }
}

pub open spec fn mixed_choices(hash: u64, style: TaffyStyle) -> u64 {
    let hash = mixed(hash, display_tag(style.display));
    let hash = mixed(hash, position_tag(style.position));
    let hash = mixed(hash, direction_tag(style.flex_direction));
    let hash = mixed(hash, wrap_tag(style.flex_wrap));
    let hash = mixed(hash, items_tag(style.align_items));
    let hash = mixed(hash, items_tag(style.align_self));
    let hash = mixed(hash, content_tag(style.justify_content));
    let hash = mixed(hash, content_tag(style.align_content));
    let hash = mixed(hash, overflow_tag(style.overflow.x));
    mixed(hash, overflow_tag(style.overflow.y))
}

fn tag_of_overflow(overflow: Overflow) -> (r: u64)
    ensures
        r == overflow_tag(overflow),
{
    match overflow {
        Overflow::Visible => 0,
        Overflow::Clip => 1,
        Overflow::Hidden => 2,
        Overflow::Scroll => 3,
    }
}

fn tag_of_option<T>(option: &Option<T>) -> (r: u64)
    ensures
        r == if *option is Some {
            1u64
        } else {
            0u64
        },
{
    match option {
        Some(_) => 1,
        None => 0,
    }
}

fn mix_choices(hash: u64, style: &TaffyStyle) -> (r: u64)
    ensures
        r == mixed_choices(hash, *style),
{
    let display: u64 = match style.display {
        Display::Block => 0,
        Display::Flex => 1,
        Display::Grid => 2,
        Display::Absent => 3,
    };
    let position: u64 = match style.position {
        Position::Relative => 0,
        Position::Absolute => 1,
    };
    let direction: u64 = match style.flex_direction {
        FlexDirection::Row => 0,
        FlexDirection::Column => 1,
        FlexDirection::RowReverse => 2,
        FlexDirection::ColumnReverse => 3,
    };
    let wrap: u64 = match style.flex_wrap {
        FlexWrap::NoWrap => 0,
        FlexWrap::Wrap => 1,
        FlexWrap::WrapReverse => 2,
    };
    let hash = mix(hash, display);
    let hash = mix(hash, position);
    let hash = mix(hash, direction);
    let hash = mix(hash, wrap);
    let hash = mix(hash, tag_of_option(&style.align_items));
    let hash = mix(hash, tag_of_option(&style.align_self));
    let hash = mix(hash, tag_of_option(&style.justify_content));
    let hash = mix(hash, tag_of_option(&style.align_content));
    let hash = mix(hash, tag_of_overflow(style.overflow.x));
    mix(hash, tag_of_overflow(style.overflow.y))
}

// ---- keys --------------------------------------------------------------------------------------

/// A number for the parts of a style that most styles differ in.
pub open spec fn fingerprint(style: TaffyStyle) -> u64 {
    let hash = mixed_choices(0, style);
    let hash = mixed(hash, style.flex_grow.bits as u64);
    let hash = mixed(hash, style.flex_shrink.bits as u64);
    let hash = mixed_length(hash, style.flex_basis);
    let hash = mixed_size(hash, style.size);
    let hash = mixed_size(hash, style.min_size);
    let hash = mixed_size(hash, style.max_size);
    let hash = mixed_edges(hash, style.margin);
    let hash = mixed_edges(hash, style.inset);
    let hash = mixed_edges(hash, style.padding);
    let hash = mixed_edges(hash, style.border);
    mixed_size(hash, style.gap)
}

pub fn style_fingerprint(style: &TaffyStyle) -> (r: u64)
    ensures
        r == fingerprint(*style),
{
    let hash = mix_choices(0, style);
    let hash = mix(hash, style.flex_grow.bits as u64);
    let hash = mix(hash, style.flex_shrink.bits as u64);
    let hash = mix_length(hash, style.flex_basis);
    let hash = mix_size(hash, &style.size);
    let hash = mix_size(hash, &style.min_size);
    let hash = mix_size(hash, &style.max_size);
    let hash = mix_edges(hash, &style.margin);
    let hash = mix_edges(hash, &style.inset);
    let hash = mix_edges(hash, &style.padding);
    let hash = mix_edges(hash, &style.border);
    mix_size(hash, &style.gap)
}

/// A hash with a list of numbers taken in.
pub open spec fn mixed_all(hash: u64, words: Seq<u64>) -> u64
    decreases words.len(),
{
    if words.len() == 0 {
        hash
    } else {
        mixed(mixed_all(hash, words.drop_last()), words.last())
    }
}

/// The key of a node: of its style, of what it measures, and of its children.
pub open spec fn key_of(style: TaffyStyle, children: Seq<u64>, content_key: u64) -> u64 {
    mixed_all(mixed(mixed(0, fingerprint(style)), content_key), children) | 1
}

/// The key of a node. Zero is not a key: it stands for nodes that are not kept.
pub fn structural_key(style: &TaffyStyle, children: &Vec<u64>, content_key: u64) -> (r: u64)
    ensures
        r == key_of(*style, children@, content_key),
        r != 0,
{
    let start = mix(mix(0, style_fingerprint(style)), content_key);
    let mut hash: u64 = start;
    let mut i: usize = 0;
    while i < children.len()
        invariant
            i <= children@.len(),
            hash == mixed_all(start, children@.take(i as int)),
        decreases children@.len() - i,
    {
        assert(children@.take(i + 1).drop_last() =~= children@.take(i as int));
        hash = mix(hash, children[i]);
        i = i + 1;
    }
    assert(children@.take(i as int) =~= children@);
    assert(hash | 1 != 0) by (bit_vector);
    hash | 1
}

/// No node that is kept has the key zero, which stands for nodes that are not kept.
pub proof fn law_keys_are_not_zero(style: TaffyStyle, children: Seq<u64>, content_key: u64)
    ensures
        key_of(style, children, content_key) != 0,
{
    let hash = mixed_all(mixed(mixed(0, fingerprint(style)), content_key), children);
    assert(hash | 1 != 0) by (bit_vector);
}

// ---- what goes into a key ----------------------------------------------------------------------

/// The numbers that stand for a length.
#[verifier::opaque]
pub open spec fn length_words(length: TaffyLength) -> Seq<u64> {
    seq![length_tag(length), length_bits(length)]
}

/// The numbers that stand for a size: its width, then its height.
#[verifier::opaque]
pub open spec fn size_words(size: Size<TaffyLength>) -> Seq<u64> {
    length_words(size.width) + length_words(size.height)
}

/// The numbers that stand for the sides of a box: left, right, top and bottom.
#[verifier::opaque]
pub open spec fn edge_words(edges: Edges<TaffyLength>) -> Seq<u64> {
    length_words(edges.left) + length_words(edges.right) + length_words(edges.top) + length_words(
        edges.bottom,
    )
}

/// The numbers that stand for the choices of a style.
#[verifier::opaque]
pub open spec fn choice_words(style: TaffyStyle) -> Seq<u64> {
    seq![
        display_tag(style.display),
        position_tag(style.position),
        direction_tag(style.flex_direction),
        wrap_tag(style.flex_wrap),
        items_tag(style.align_items),
        items_tag(style.align_self),
        content_tag(style.justify_content),
        content_tag(style.align_content),
        overflow_tag(style.overflow.x),
        overflow_tag(style.overflow.y),
    ]
}

/// The numbers that stand for the lengths of a style.
#[verifier::opaque]
pub open spec fn measure_words(style: TaffyStyle) -> Seq<u64> {
    seq![style.flex_grow.bits as u64, style.flex_shrink.bits as u64] + length_words(
        style.flex_basis,
    ) + size_words(style.size) + size_words(style.min_size) + size_words(style.max_size)
        + edge_words(style.margin) + edge_words(style.inset) + edge_words(style.padding)
        + edge_words(style.border) + size_words(style.gap)
}

proof fn lemma_mixed_add(hash: u64, a: Seq<u64>, b: Seq<u64>)
    ensures
        mixed_all(hash, a + b) == mixed_all(mixed_all(hash, a), b),
    decreases b.len(),
{
    if b.len() == 0 {
        assert(a + b =~= a);
    } else {
        assert((a + b).drop_last() =~= a + b.drop_last());
        assert((a + b).last() == b.last());
        lemma_mixed_add(hash, a, b.drop_last());
    }
}

proof fn lemma_mixed_one(hash: u64, word: u64)
    ensures
        mixed_all(hash, seq![word]) == mixed(hash, word),
{
    reveal_with_fuel(mixed_all, 2);
    assert(seq![word].drop_last() =~= Seq::<u64>::empty());
}

proof fn lemma_mixed_length(hash: u64, length: TaffyLength)
    ensures
        mixed_all(hash, length_words(length)) == mixed_length(hash, length),
{
    reveal(length_words);
    let a = seq![length_tag(length)];
    let b = seq![length_bits(length)];
    assert(length_words(length) =~= a + b);
    lemma_mixed_add(hash, a, b);
    lemma_mixed_one(hash, length_tag(length));
    lemma_mixed_one(mixed(hash, length_tag(length)), length_bits(length));
}

proof fn lemma_mixed_size(hash: u64, size: Size<TaffyLength>)
    ensures
        mixed_all(hash, size_words(size)) == mixed_size(hash, size),
{
    reveal(size_words);
    lemma_mixed_add(hash, length_words(size.width), length_words(size.height));
    lemma_mixed_length(hash, size.width);
    lemma_mixed_length(mixed_length(hash, size.width), size.height);
}

proof fn lemma_mixed_edges(hash: u64, edges: Edges<TaffyLength>)
    ensures
        mixed_all(hash, edge_words(edges)) == mixed_edges(hash, edges),
{
    reveal(edge_words);
    let left = length_words(edges.left);
    let right = length_words(edges.right);
    let top = length_words(edges.top);
    lemma_mixed_add(hash, left + right + top, length_words(edges.bottom));
    lemma_mixed_add(hash, left + right, top);
    lemma_mixed_add(hash, left, right);
    let one = mixed_length(hash, edges.left);
    let two = mixed_length(one, edges.right);
    let three = mixed_length(two, edges.top);
    lemma_mixed_length(hash, edges.left);
    lemma_mixed_length(one, edges.right);
    lemma_mixed_length(two, edges.top);
    lemma_mixed_length(three, edges.bottom);
}

proof fn lemma_mixed_choices(hash: u64, style: TaffyStyle)
    ensures
        mixed_all(hash, choice_words(style)) == mixed_choices(hash, style),
{
    reveal(choice_words);
    let words = choice_words(style);
    assert(words.len() == 10);
    reveal_with_fuel(mixed_all, 11);
    assert(words.drop_last() =~= words.take(9));
    assert(words.take(9).drop_last() =~= words.take(8));
    assert(words.take(8).drop_last() =~= words.take(7));
    assert(words.take(7).drop_last() =~= words.take(6));
    assert(words.take(6).drop_last() =~= words.take(5));
    assert(words.take(5).drop_last() =~= words.take(4));
    assert(words.take(4).drop_last() =~= words.take(3));
    assert(words.take(3).drop_last() =~= words.take(2));
    assert(words.take(2).drop_last() =~= words.take(1));
    assert(words.take(1).drop_last() =~= words.take(0));
}

proof fn lemma_mixed_measures(hash: u64, style: TaffyStyle, result: u64)
    requires
        ({
            let hash = mixed(hash, style.flex_grow.bits as u64);
            let hash = mixed(hash, style.flex_shrink.bits as u64);
            let hash = mixed_length(hash, style.flex_basis);
            let hash = mixed_size(hash, style.size);
            let hash = mixed_size(hash, style.min_size);
            let hash = mixed_size(hash, style.max_size);
            let hash = mixed_edges(hash, style.margin);
            let hash = mixed_edges(hash, style.inset);
            let hash = mixed_edges(hash, style.padding);
            let hash = mixed_edges(hash, style.border);
            result == mixed_size(hash, style.gap)
        }),
    ensures
        mixed_all(hash, measure_words(style)) == result,
{
    reveal(measure_words);
    let grow = seq![style.flex_grow.bits as u64];
    let shrink = seq![style.flex_shrink.bits as u64];
    let flex = seq![style.flex_grow.bits as u64, style.flex_shrink.bits as u64];
    assert(flex =~= grow + shrink);
    lemma_mixed_add(hash, grow, shrink);
    lemma_mixed_one(hash, style.flex_grow.bits as u64);
    let h = mixed(hash, style.flex_grow.bits as u64);
    lemma_mixed_one(h, style.flex_shrink.bits as u64);
    let h = mixed(h, style.flex_shrink.bits as u64);
    let words = flex;
    lemma_mixed_add(hash, words, length_words(style.flex_basis));
    lemma_mixed_length(h, style.flex_basis);
    let h = mixed_length(h, style.flex_basis);
    let words = words + length_words(style.flex_basis);
    lemma_mixed_add(hash, words, size_words(style.size));
    lemma_mixed_size(h, style.size);
    let h = mixed_size(h, style.size);
    let words = words + size_words(style.size);
    lemma_mixed_add(hash, words, size_words(style.min_size));
    lemma_mixed_size(h, style.min_size);
    let h = mixed_size(h, style.min_size);
    let words = words + size_words(style.min_size);
    lemma_mixed_add(hash, words, size_words(style.max_size));
    lemma_mixed_size(h, style.max_size);
    let h = mixed_size(h, style.max_size);
    let words = words + size_words(style.max_size);
    lemma_mixed_add(hash, words, edge_words(style.margin));
    lemma_mixed_edges(h, style.margin);
    let h = mixed_edges(h, style.margin);
    let words = words + edge_words(style.margin);
    lemma_mixed_add(hash, words, edge_words(style.inset));
    lemma_mixed_edges(h, style.inset);
    let h = mixed_edges(h, style.inset);
    let words = words + edge_words(style.inset);
    lemma_mixed_add(hash, words, edge_words(style.padding));
    lemma_mixed_edges(h, style.padding);
    let h = mixed_edges(h, style.padding);
    let words = words + edge_words(style.padding);
    lemma_mixed_add(hash, words, edge_words(style.border));
    lemma_mixed_edges(h, style.border);
    let h = mixed_edges(h, style.border);
    let words = words + edge_words(style.border);
    lemma_mixed_add(hash, words, size_words(style.gap));
    lemma_mixed_size(h, style.gap);
}

/// The key of a node takes in, one after the other, the fingerprint of its style, its content and its
/// children in order; and the fingerprint takes in the choices and then the lengths of the style. The
/// last bit is then set.
pub proof fn law_a_key_takes_in_every_part(style: TaffyStyle, children: Seq<u64>, content_key: u64)
    ensures
        fingerprint(style) == mixed_all(0, choice_words(style) + measure_words(style)),
        key_of(style, children, content_key) == mixed_all(
            0,
            seq![fingerprint(style), content_key] + children,
        ) | 1,
{
    lemma_mixed_add(0, choice_words(style), measure_words(style));
    lemma_mixed_choices(0, style);
    lemma_mixed_measures(mixed_choices(0, style), style, fingerprint(style));
    let a = seq![fingerprint(style)];
    let b = seq![content_key];
    assert(seq![fingerprint(style), content_key] =~= a + b);
    lemma_mixed_add(0, a + b, children);
    lemma_mixed_add(0, a, b);
    lemma_mixed_one(0, fingerprint(style));
    lemma_mixed_one(mixed(0, fingerprint(style)), content_key);
}

/// The numbers that stand for a length tell what kind it is and how long, so that no two lengths have the
/// same.
pub proof fn law_lengths_differ_in_their_numbers(a: TaffyLength, b: TaffyLength)
    ensures
        length_words(a) == length_words(b) ==> a == b,
{
    reveal(length_words);
    if length_words(a) == length_words(b) {
        assert(length_words(a)[0] == length_words(b)[0]);
        assert(length_words(a)[1] == length_words(b)[1]);
    }
}

proof fn lemma_split_words(a: Seq<u64>, b: Seq<u64>, c: Seq<u64>, d: Seq<u64>)
    requires
        a + b == c + d,
        b.len() == d.len(),
    ensures
        a == c,
        b == d,
{
    assert((a + b).len() == a.len() + b.len());
    assert((c + d).len() == c.len() + d.len());
    assert(a =~= (a + b).take(a.len() as int));
    assert(c =~= (c + d).take(c.len() as int));
    assert(b =~= (a + b).skip(a.len() as int));
    assert(d =~= (c + d).skip(c.len() as int));
}

proof fn lemma_lengths_of_words(size: Size<TaffyLength>, edges: Edges<TaffyLength>)
    ensures
        length_words(size.width).len() == 2,
        size_words(size).len() == 4,
        edge_words(edges).len() == 8,
{
    reveal(length_words);
    reveal(size_words);
    reveal(edge_words);
}

proof fn lemma_size_words(a: Size<TaffyLength>, b: Size<TaffyLength>)
    requires
        size_words(a) == size_words(b),
    ensures
        same_dimensions(a, b),
{
    reveal(size_words);
    assert(length_words(a.height).len() == length_words(b.height).len()) by {
        reveal(length_words);
    }
    lemma_split_words(
        length_words(a.width),
        length_words(a.height),
        length_words(b.width),
        length_words(b.height),
    );
    law_lengths_differ_in_their_numbers(a.width, b.width);
    law_lengths_differ_in_their_numbers(a.height, b.height);
}

proof fn lemma_edge_words(a: Edges<TaffyLength>, b: Edges<TaffyLength>)
    requires
        edge_words(a) == edge_words(b),
    ensures
        same_sides(a, b),
{
    reveal(edge_words);
    assert(length_words(a.right).len() == length_words(b.right).len()) by {
        reveal(length_words);
    }
    assert(length_words(a.top).len() == length_words(b.top).len()) by {
        reveal(length_words);
    }
    assert(length_words(a.bottom).len() == length_words(b.bottom).len()) by {
        reveal(length_words);
    }
    let one = length_words(a.left) + length_words(a.right);
    let other = length_words(b.left) + length_words(b.right);
    lemma_split_words(
        one + length_words(a.top),
        length_words(a.bottom),
        other + length_words(b.top),
        length_words(b.bottom),
    );
    lemma_split_words(one, length_words(a.top), other, length_words(b.top));
    lemma_split_words(
        length_words(a.left),
        length_words(a.right),
        length_words(b.left),
        length_words(b.right),
    );
    law_lengths_differ_in_their_numbers(a.left, b.left);
    law_lengths_differ_in_their_numbers(a.right, b.right);
    law_lengths_differ_in_their_numbers(a.top, b.top);
    law_lengths_differ_in_their_numbers(a.bottom, b.bottom);
}

/// Styles that differ in a choice or a length that most styles differ in are told apart by the numbers
/// that go into their fingerprints. Of an alignment only whether there is one goes in.
pub proof fn law_fingerprints_tell_styles_apart(a: TaffyStyle, b: TaffyStyle)
    requires
        choice_words(a) + measure_words(a) == choice_words(b) + measure_words(b),
    ensures
        a.display == b.display,
        a.position == b.position,
        a.flex_direction == b.flex_direction,
        a.flex_wrap == b.flex_wrap,
        a.align_items is Some == b.align_items is Some,
        a.align_self is Some == b.align_self is Some,
        a.justify_content is Some == b.justify_content is Some,
        a.align_content is Some == b.align_content is Some,
        a.overflow.x == b.overflow.x,
        a.overflow.y == b.overflow.y,
        a.flex_grow.bits == b.flex_grow.bits,
        a.flex_shrink.bits == b.flex_shrink.bits,
        a.flex_basis == b.flex_basis,
        same_dimensions(a.size, b.size),
        same_dimensions(a.min_size, b.min_size),
        same_dimensions(a.max_size, b.max_size),
        same_sides(a.margin, b.margin),
        same_sides(a.inset, b.inset),
        same_sides(a.padding, b.padding),
        same_sides(a.border, b.border),
        same_dimensions(a.gap, b.gap),
{
    assert(choice_words(a).len() == choice_words(b).len()) by {
        reveal(choice_words);
    }
    assert((choice_words(a) + measure_words(a)).len() == choice_words(a).len() + measure_words(
        a,
    ).len());
    assert((choice_words(b) + measure_words(b)).len() == choice_words(b).len() + measure_words(
        b,
    ).len());
    lemma_split_words(choice_words(a), measure_words(a), choice_words(b), measure_words(b));
    lemma_choice_words(a, b);
    lemma_measure_words(a, b);
}

proof fn lemma_choice_words(a: TaffyStyle, b: TaffyStyle)
    requires
        choice_words(a) == choice_words(b),
    ensures
        a.display == b.display,
        a.position == b.position,
        a.flex_direction == b.flex_direction,
        a.flex_wrap == b.flex_wrap,
        a.align_items is Some == b.align_items is Some,
        a.align_self is Some == b.align_self is Some,
        a.justify_content is Some == b.justify_content is Some,
        a.align_content is Some == b.align_content is Some,
        a.overflow.x == b.overflow.x,
        a.overflow.y == b.overflow.y,
{
    reveal(choice_words);
    let x = choice_words(a);
    let y = choice_words(b);
    assert(x[0] == y[0] && x[1] == y[1] && x[2] == y[2] && x[3] == y[3] && x[4] == y[4]);
    assert(x[5] == y[5] && x[6] == y[6] && x[7] == y[7] && x[8] == y[8] && x[9] == y[9]);
}

proof fn lemma_measure_words(a: TaffyStyle, b: TaffyStyle)
    requires
        measure_words(a) == measure_words(b),
    ensures
        a.flex_grow.bits == b.flex_grow.bits,
        a.flex_shrink.bits == b.flex_shrink.bits,
        a.flex_basis == b.flex_basis,
        same_dimensions(a.size, b.size),
        same_dimensions(a.min_size, b.min_size),
        same_dimensions(a.max_size, b.max_size),
        same_sides(a.margin, b.margin),
        same_sides(a.inset, b.inset),
        same_sides(a.padding, b.padding),
        same_sides(a.border, b.border),
        same_dimensions(a.gap, b.gap),
{
    reveal(measure_words);
    lemma_lengths_of_words(a.gap, a.border);
    lemma_lengths_of_words(b.gap, b.border);
    lemma_lengths_of_words(a.max_size, a.padding);
    lemma_lengths_of_words(b.max_size, b.padding);
    lemma_lengths_of_words(a.min_size, a.inset);
    lemma_lengths_of_words(b.min_size, b.inset);
    lemma_lengths_of_words(a.size, a.margin);
    lemma_lengths_of_words(b.size, b.margin);
    assert(length_words(a.flex_basis).len() == length_words(b.flex_basis).len()) by {
        reveal(length_words);
    }
    let p1 = seq![a.flex_grow.bits as u64, a.flex_shrink.bits as u64];
    let q1 = seq![b.flex_grow.bits as u64, b.flex_shrink.bits as u64];
    let p2 = p1 + length_words(a.flex_basis);
    let q2 = q1 + length_words(b.flex_basis);
    let p3 = p2 + size_words(a.size);
    let q3 = q2 + size_words(b.size);
    let p4 = p3 + size_words(a.min_size);
    let q4 = q3 + size_words(b.min_size);
    let p5 = p4 + size_words(a.max_size);
    let q5 = q4 + size_words(b.max_size);
    let p6 = p5 + edge_words(a.margin);
    let q6 = q5 + edge_words(b.margin);
    let p7 = p6 + edge_words(a.inset);
    let q7 = q6 + edge_words(b.inset);
    let p8 = p7 + edge_words(a.padding);
    let q8 = q7 + edge_words(b.padding);
    let p9 = p8 + edge_words(a.border);
    let q9 = q8 + edge_words(b.border);
    lemma_split_words(p9, size_words(a.gap), q9, size_words(b.gap));
    lemma_split_words(p8, edge_words(a.border), q8, edge_words(b.border));
    lemma_split_words(p7, edge_words(a.padding), q7, edge_words(b.padding));
    lemma_split_words(p6, edge_words(a.inset), q6, edge_words(b.inset));
    lemma_split_words(p5, edge_words(a.margin), q5, edge_words(b.margin));
    lemma_split_words(p4, size_words(a.max_size), q4, size_words(b.max_size));
    lemma_split_words(p3, size_words(a.min_size), q3, size_words(b.min_size));
    lemma_split_words(p2, size_words(a.size), q2, size_words(b.size));
    lemma_split_words(p1, length_words(a.flex_basis), q1, length_words(b.flex_basis));
    assert(p1[0] == q1[0] && p1[1] == q1[1]);
    law_lengths_differ_in_their_numbers(a.flex_basis, b.flex_basis);
    lemma_size_words(a.size, b.size);
    lemma_size_words(a.min_size, b.min_size);
    lemma_size_words(a.max_size, b.max_size);
    lemma_size_words(a.gap, b.gap);
    lemma_edge_words(a.margin, b.margin);
    lemma_edge_words(a.inset, b.inset);
    lemma_edge_words(a.padding, b.padding);
    lemma_edge_words(a.border, b.border);
}

} // verus!
