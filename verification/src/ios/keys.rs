//! The key equivalents that menu items show.

use crate::text::{
    append_decimal, ascii_lower, begins_at, begins_with, decimal, law_a_notation_stands_for_its_number,
    same_text,
};
use crate::view::window::Modifiers;
use vstd::prelude::*;
use vstd::string::{StrSliceExecFns, StringExecFns};

verus! {

/// A key with the modifiers that are held.
#[derive(Debug)]
pub struct Keystroke {
    pub key: String,
    pub modifiers: Modifiers,
}

/// A binding of keys to an action.
#[derive(Debug)]
pub struct KeyBinding {
    /// Names the action.
    pub action: u64,
    pub keystrokes: Vec<Keystroke>,
    /// Whether the binding's predicate holds in a context with nothing but the defaults, where it
    /// has one.
    pub predicate: Option<bool>,
}

/// The bindings, in the order of their precedence.
#[derive(Debug)]
pub struct Keymap {
    pub bindings: Vec<KeyBinding>,
}

/// The key that a menu item shows, as the system takes it.
#[derive(Debug)]
pub struct KeyEquivalent {
    pub input: String,
    /// The modifiers, as flags.
    pub modifiers: u64,
}

/// A key equivalent, as contracts speak of it.
pub struct KeyModel {
    pub input: Seq<char>,
    pub modifiers: u64,
}

impl KeyEquivalent {
    pub open spec fn model(self) -> KeyModel {
        KeyModel { input: self.input@, modifiers: self.modifiers }
    }
}

pub const FLAG_SHIFT: u64 = 0x2_0000;

pub const FLAG_CONTROL: u64 = 0x4_0000;

pub const FLAG_ALTERNATE: u64 = 0x8_0000;

pub const FLAG_COMMAND: u64 = 0x10_0000;

pub open spec fn flag_if(held: bool, flag: u64) -> int {
    if held {
        flag as int
    } else {
        0
    }
}

/// The flags of the modifiers that are held. No two of them share a bit.
pub open spec fn modifier_flags(modifiers: Modifiers) -> int {
    flag_if(modifiers.platform, FLAG_COMMAND) + flag_if(modifiers.control, FLAG_CONTROL) + flag_if(
        modifiers.alt,
        FLAG_ALTERNATE,
    ) + flag_if(modifiers.shift, FLAG_SHIFT)
}

pub fn ui_modifiers(modifiers: &Modifiers) -> (r: u64)
    ensures
        r == modifier_flags(*modifiers),
{
    let mut flags: u64 = 0;
    if modifiers.platform {
        flags = flags + FLAG_COMMAND;
    }
    if modifiers.control {
        flags = flags + FLAG_CONTROL;
    }
    if modifiers.alt {
        flags = flags + FLAG_ALTERNATE;
    }
    if modifiers.shift {
        flags = flags + FLAG_SHIFT;
    }
    flags
}

// ---- function keys -----------------------------------------------------------------------------

pub open spec fn is_digit(c: char) -> bool {
    '0' <= c && c <= '9'
}

/// The number that digits denote.
pub open spec fn digits_value(digits: Seq<char>) -> nat
    decreases digits.len(),
{
    if digits.len() == 0 {
        0
    } else {
        digits_value(digits.drop_last()) * 10 + (digits.last() as nat - 48) as nat
    }
}

/// The digits of a number: what is behind a sign, if there is one.
pub open spec fn unsigned_part(text: Seq<char>) -> Seq<char> {
    if text.len() > 0 && text[0] == '+' {
        text.skip(1)
    } else {
        text
    }
}

/// The number of a function key, where the text is one.
pub open spec fn function_number(text: Seq<char>) -> Option<nat> {
    let digits = unsigned_part(text);
    if digits.len() > 0 && (forall|i: int| 0 <= i < digits.len() ==> is_digit(#[trigger] digits[i]))
        && 1 <= digits_value(digits) <= 12 {
        Some(digits_value(digits))
    } else {
        None
    }
}

/// Reads the number of a function key from a place on. Only numbers up to twelve are of interest.
fn parse_function_number(text: &str, at: usize) -> (r: Option<usize>)
    requires
        at <= text@.len(),
    ensures
        match r {
            Some(n) => function_number(text@.skip(at as int)) == Some(n as nat) && 1 <= n <= 12,
            None => function_number(text@.skip(at as int)) is None,
        },
{
    let count = text.unicode_len();
    let ghost rest = text@.skip(at as int);
    let mut start: usize = at;
    if at < count && text.get_char(at) == '+' {
        start = at + 1;
    }
    let ghost digits = unsigned_part(rest);
    assert(digits =~= text@.skip(start as int));
    if start == count {
        return None;
    }
    let mut value: usize = 0;
    let mut large = false;
    let mut i: usize = start;
    assert(digits.take(0) =~= Seq::<char>::empty());
    while i < count
        invariant
            count == text@.len(),
            start <= i <= count,
            digits == text@.skip(start as int),
            digits == unsigned_part(rest),
            rest == text@.skip(at as int),
            forall|j: int| 0 <= j < i - start ==> is_digit(#[trigger] digits[j]),
            value <= 12,
            !large ==> value == digits_value(digits.take(i - start)),
            large ==> digits_value(digits.take(i - start)) > 12,
        decreases count - i,
    {
        let c = text.get_char(i);
        proof {
            assert(digits[i - start] == c);
            assert(digits.take(i - start + 1).drop_last() =~= digits.take(i - start));
            assert(digits.take(i - start + 1).last() == c);
        }
        if c < '0' || c > '9' {
            assert(!is_digit(digits[i - start]));
            return None;
        }
        let next: usize = value * 10 + (c as u32 as usize - 48);
        if next > 12 {
            large = true;
        } else if !large {
            value = next;
        }
        i = i + 1;
    }
    assert(digits.take(i - start) =~= digits);
    if large || value == 0 {
        None
    } else {
        Some(value)
    }
}

// ---- keys --------------------------------------------------------------------------------------

/// A character in small letters.
pub uninterp spec fn lowercase(c: char) -> Seq<char>;

/// `char::to_lowercase`: the characters of the lower-case form of a character. For an ASCII
/// character that is one character: the small letter of a capital letter, and any other itself.
#[verifier::external_body]
fn lowercase_of(c: char) -> (r: String)
    ensures
        r@ == lowercase(c),
        (c as u32) < 128 ==> r@ == seq![ascii_lower(c)],
{
    c.to_lowercase().collect()
}

/// The system's name for a key that prints nothing, or what it prints.
pub open spec fn named_input(key: Seq<char>) -> Option<Seq<char>> {
    if key == "escape"@ {
        Some("UIKeyInputEscape"@)
    } else if key == "up"@ {
        Some("UIKeyInputUpArrow"@)
    } else if key == "down"@ {
        Some("UIKeyInputDownArrow"@)
    } else if key == "left"@ {
        Some("UIKeyInputLeftArrow"@)
    } else if key == "right"@ {
        Some("UIKeyInputRightArrow"@)
    } else if key == "pageup"@ {
        Some("UIKeyInputPageUp"@)
    } else if key == "pagedown"@ {
        Some("UIKeyInputPageDown"@)
    } else if key == "home"@ {
        Some("UIKeyInputHome"@)
    } else if key == "end"@ {
        Some("UIKeyInputEnd"@)
    } else if key == "delete"@ {
        Some("UIKeyInputDelete"@)
    } else if key == "backspace"@ {
        Some("\u{8}"@)
    } else if key == "enter"@ {
        Some("\r"@)
    } else if key == "tab"@ {
        Some("\t"@)
    } else if key == "space"@ {
        Some(" "@)
    } else {
        None
    }
}

fn input_of_name(key: &str) -> (r: Option<&'static str>)
    ensures
        match r {
            Some(input) => named_input(key@) == Some(input@),
            None => named_input(key@) is None,
        },
{
    if same_text(key, "escape") {
        Some("UIKeyInputEscape")
    } else if same_text(key, "up") {
        Some("UIKeyInputUpArrow")
    } else if same_text(key, "down") {
        Some("UIKeyInputDownArrow")
    } else if same_text(key, "left") {
        Some("UIKeyInputLeftArrow")
    } else if same_text(key, "right") {
        Some("UIKeyInputRightArrow")
    } else if same_text(key, "pageup") {
        Some("UIKeyInputPageUp")
    } else if same_text(key, "pagedown") {
        Some("UIKeyInputPageDown")
    } else if same_text(key, "home") {
        Some("UIKeyInputHome")
    } else if same_text(key, "end") {
        Some("UIKeyInputEnd")
    } else if same_text(key, "delete") {
        Some("UIKeyInputDelete")
    } else if same_text(key, "backspace") {
        Some("\u{8}")
    } else if same_text(key, "enter") {
        Some("\r")
    } else if same_text(key, "tab") {
        Some("\t")
    } else if same_text(key, "space") {
        Some(" ")
    } else {
        None
    }
}

/// What the system takes for a key: a single character in small letters, a name, or the name of a
/// function key from the first to the twelfth. Other keys have none.
pub open spec fn key_input(key: Seq<char>) -> Option<Seq<char>> {
    if key.len() == 1 {
        Some(lowercase(key[0]))
    } else if named_input(key) is Some {
        named_input(key)
    } else if begins_with(key, "f"@) && function_number(key.skip(1)) is Some {
        Some("UIKeyInputF"@ + decimal(function_number(key.skip(1))->0))
    } else {
        None
    }
}

pub fn ui_key_input(key: &str) -> (r: Option<String>)
    ensures
        match r {
            Some(input) => key_input(key@) == Some(input@),
            None => key_input(key@) is None,
        },
        key@.len() == 1 && (key@[0] as u32) < 128 ==> r is Some && r->0@ == seq![
            ascii_lower(key@[0]),
        ],
{
    if key.unicode_len() == 1 {
        return Some(lowercase_of(key.get_char(0)));
    }
    if let Some(input) = input_of_name(key) {
        return Some(input.to_owned());
    }
    assert(key@.skip(0) =~= key@);
    if !begins_at(key, 0, "f") {
        return None;
    }
    proof {
        reveal_strlit("f");
    }
    match parse_function_number(key, 1) {
        Some(number) => {
            let mut input: String = "UIKeyInputF".to_owned();
            append_decimal(&mut input, number);
            Some(input)
        },
        None => None,
    }
}

// ---- bindings ----------------------------------------------------------------------------------

/// The places of the bindings of an action, in order.
pub open spec fn bindings_for(bindings: Seq<KeyBinding>, action: u64) -> Seq<int>
    decreases bindings.len(),
{
    if bindings.len() == 0 {
        seq![]
    } else if bindings.last().action == action {
        bindings_for(bindings.drop_last(), action).push(bindings.len() - 1)
    } else {
        bindings_for(bindings.drop_last(), action)
    }
}

/// The binding holds where there is nothing but the defaults.
pub open spec fn holds_by_default(binding: KeyBinding) -> bool {
    binding.predicate != Some(false)
}

/// The place of the first of some bindings that holds.
pub open spec fn first_holding(bindings: Seq<KeyBinding>, places: Seq<int>) -> Option<int>
    decreases places.len(),
{
    if places.len() == 0 {
        None
    } else if first_holding(bindings, places.drop_last()) is Some {
        first_holding(bindings, places.drop_last())
    } else if holds_by_default(bindings[places.last()]) {
        Some(places.last())
    } else {
        None
    }
}

/// The place of the binding that an action shows: the first that holds, or else the first.
pub open spec fn shown_binding(bindings: Seq<KeyBinding>, action: u64) -> Option<int> {
    let places = bindings_for(bindings, action);
    if first_holding(bindings, places) is Some {
        first_holding(bindings, places)
    } else if places.len() > 0 {
        Some(places[0])
    } else {
        None
    }
}

/// The key equivalent of an action. Only a binding of a single keystroke has one.
pub open spec fn equivalent(keymap: Keymap, action: u64) -> Option<KeyModel> {
    match shown_binding(keymap.bindings@, action) {
        Some(place) => {
            let keystrokes = keymap.bindings@[place].keystrokes@;
            if keystrokes.len() == 1 && key_input(keystrokes[0].key@) is Some {
                Some(
                    KeyModel {
                        input: key_input(keystrokes[0].key@)->0,
                        modifiers: modifier_flags(keystrokes[0].modifiers) as u64,
                    },
                )
            } else {
                None
            }
        },
        None => None,
    }
}

/// More bindings behind the first one that holds make no difference.
proof fn lemma_holding_stays(bindings: Seq<KeyBinding>, action: u64, count: int)
    requires
        0 <= count <= bindings.len(),
        first_holding(bindings, bindings_for(bindings.take(count), action)) is Some,
    ensures
        first_holding(bindings, bindings_for(bindings, action)) == first_holding(
            bindings,
            bindings_for(bindings.take(count), action),
        ),
    decreases bindings.len() - count,
{
    if count == bindings.len() {
        assert(bindings.take(count) =~= bindings);
    } else {
        let next = bindings.take(count + 1);
        assert(next.drop_last() =~= bindings.take(count));
        let before = bindings_for(bindings.take(count), action);
        assert(before.push(count).drop_last() =~= before);
        lemma_holding_stays(bindings, action, count + 1);
    }
}

/// The place of the binding that an action shows.
fn find_shown(keymap: &Keymap, action: u64) -> (r: Option<usize>)
    ensures
        match r {
            Some(place) => shown_binding(keymap.bindings@, action) == Some(place as int) && place
                < keymap.bindings@.len(),
            None => shown_binding(keymap.bindings@, action) is None,
        },
{
    let ghost all = keymap.bindings@;
    let mut first: Option<usize> = None;
    let mut i: usize = 0;
    assert(all.take(0) =~= Seq::<KeyBinding>::empty());
    while i < keymap.bindings.len()
        invariant
            all == keymap.bindings@,
            i <= all.len(),
            first_holding(all, bindings_for(all.take(i as int), action)) is None,
            match first {
                Some(place) => {
                    &&& bindings_for(all.take(i as int), action).len() > 0
                    &&& place == bindings_for(all.take(i as int), action)[0]
                    &&& place < all.len()
                },
                None => bindings_for(all.take(i as int), action).len() == 0,
            },
        decreases all.len() - i,
    {
        let ghost before = bindings_for(all.take(i as int), action);
        let binding = &keymap.bindings[i];
        proof {
            assert(all.take(i + 1).drop_last() =~= all.take(i as int));
            assert(all.take(i + 1).last() == all[i as int]);
            assert(before.push(i as int).drop_last() =~= before);
        }
        if binding.action == action {
            if first.is_none() {
                first = Some(i);
            }
            let holds = match binding.predicate {
                Some(holds) => holds,
                None => true,
            };
            if holds {
                proof {
                    lemma_holding_stays(all, action, i + 1);
                }
                return Some(i);
            }
        }
        i = i + 1;
    }
    assert(all.take(i as int) =~= all);
    first
}

/// The key equivalent to show for an action: that of the first binding that holds where there is
/// nothing but the defaults, or else of the first.
pub fn key_equivalent(action: u64, keymap: &Keymap) -> (r: Option<KeyEquivalent>)
    ensures
        match r {
            Some(key) => equivalent(*keymap, action) == Some(key.model()),
            None => equivalent(*keymap, action) is None,
        },
{
    let place = match find_shown(keymap, action) {
        Some(place) => place,
        None => {
            return None;
        },
    };
    let binding = &keymap.bindings[place];
    if binding.keystrokes.len() != 1 {
        return None;
    }
    let keystroke = &binding.keystrokes[0];
    match ui_key_input(keystroke.key.as_str()) {
        Some(input) => Some(
            KeyEquivalent { input, modifiers: ui_modifiers(&keystroke.modifiers) },
        ),
        None => None,
    }
}

// ---- laws --------------------------------------------------------------------------------------

/// Each modifier has a bit of its own in the flags, and no other bit is set: that of the shift key is the
/// seventeenth, and those of control, alternate and command follow. The function key has none.
pub proof fn law_every_modifier_has_its_bit(modifiers: Modifiers)
    ensures
        modifiers.shift <==> (modifier_flags(modifiers) / 0x2_0000) % 2 == 1,
        modifiers.control <==> (modifier_flags(modifiers) / 0x4_0000) % 2 == 1,
        modifiers.alt <==> (modifier_flags(modifiers) / 0x8_0000) % 2 == 1,
        modifiers.platform <==> (modifier_flags(modifiers) / 0x10_0000) % 2 == 1,
        modifier_flags(modifiers) % 0x2_0000 == 0,
        0 <= modifier_flags(modifiers) < 0x20_0000,
{
}

/// Each key with a name has the system's input for the key of that name, and no two keys have the same.
/// The keys that print something have the character that they print.
pub proof fn law_named_keys_have_their_inputs(key: Seq<char>)
    ensures
        key == "escape"@ ==> key_input(key) == Some("UIKeyInputEscape"@),
        key == "up"@ ==> key_input(key) == Some("UIKeyInputUpArrow"@),
        key == "down"@ ==> key_input(key) == Some("UIKeyInputDownArrow"@),
        key == "left"@ ==> key_input(key) == Some("UIKeyInputLeftArrow"@),
        key == "right"@ ==> key_input(key) == Some("UIKeyInputRightArrow"@),
        key == "pageup"@ ==> key_input(key) == Some("UIKeyInputPageUp"@),
        key == "pagedown"@ ==> key_input(key) == Some("UIKeyInputPageDown"@),
        key == "home"@ ==> key_input(key) == Some("UIKeyInputHome"@),
        key == "end"@ ==> key_input(key) == Some("UIKeyInputEnd"@),
        key == "delete"@ ==> key_input(key) == Some("UIKeyInputDelete"@),
        key == "backspace"@ ==> key_input(key) == Some("\u{8}"@),
        key == "enter"@ ==> key_input(key) == Some("\r"@),
        key == "tab"@ ==> key_input(key) == Some("\t"@),
        key == "space"@ ==> key_input(key) == Some(" "@),
{
    reveal_strlit("escape");
    reveal_strlit("UIKeyInputEscape");
    reveal_strlit("up");
    reveal_strlit("UIKeyInputUpArrow");
    reveal_strlit("down");
    reveal_strlit("UIKeyInputDownArrow");
    reveal_strlit("left");
    reveal_strlit("UIKeyInputLeftArrow");
    reveal_strlit("right");
    reveal_strlit("UIKeyInputRightArrow");
    reveal_strlit("pageup");
    reveal_strlit("UIKeyInputPageUp");
    reveal_strlit("pagedown");
    reveal_strlit("UIKeyInputPageDown");
    reveal_strlit("home");
    reveal_strlit("UIKeyInputHome");
    reveal_strlit("end");
    reveal_strlit("UIKeyInputEnd");
    reveal_strlit("delete");
    reveal_strlit("UIKeyInputDelete");
    reveal_strlit("backspace");
    reveal_strlit("\u{8}");
    reveal_strlit("enter");
    reveal_strlit("\r");
    reveal_strlit("tab");
    reveal_strlit("\t");
    reveal_strlit("space");
    reveal_strlit(" ");
}

/// A key with a name is the only one with its input, so what the system reports leads back to it.
pub proof fn law_no_two_named_keys_share_an_input(a: Seq<char>, b: Seq<char>)
    requires
        named_input(a) is Some,
        named_input(a) == named_input(b),
    ensures
        a == b,
{
    reveal_strlit("escape");
    reveal_strlit("UIKeyInputEscape");
    reveal_strlit("up");
    reveal_strlit("UIKeyInputUpArrow");
    reveal_strlit("down");
    reveal_strlit("UIKeyInputDownArrow");
    reveal_strlit("left");
    reveal_strlit("UIKeyInputLeftArrow");
    reveal_strlit("right");
    reveal_strlit("UIKeyInputRightArrow");
    reveal_strlit("pageup");
    reveal_strlit("UIKeyInputPageUp");
    reveal_strlit("pagedown");
    reveal_strlit("UIKeyInputPageDown");
    reveal_strlit("home");
    reveal_strlit("UIKeyInputHome");
    reveal_strlit("end");
    reveal_strlit("UIKeyInputEnd");
    reveal_strlit("delete");
    reveal_strlit("UIKeyInputDelete");
    reveal_strlit("backspace");
    reveal_strlit("\u{8}");
    reveal_strlit("enter");
    reveal_strlit("\r");
    reveal_strlit("tab");
    reveal_strlit("\t");
    reveal_strlit("space");
    reveal_strlit(" ");
    assert("UIKeyInputEscape"@.len() == 16 && "UIKeyInputEscape"@[10] == 'E');
    assert("UIKeyInputUpArrow"@.len() == 17 && "UIKeyInputUpArrow"@[10] == 'U');
    assert("UIKeyInputDownArrow"@.len() == 19 && "UIKeyInputDownArrow"@[10] == 'D');
    assert("UIKeyInputLeftArrow"@.len() == 19 && "UIKeyInputLeftArrow"@[10] == 'L');
    assert("UIKeyInputRightArrow"@.len() == 20 && "UIKeyInputRightArrow"@[10] == 'R');
    assert("UIKeyInputPageUp"@.len() == 16 && "UIKeyInputPageUp"@[10] == 'P');
    assert("UIKeyInputPageDown"@.len() == 18 && "UIKeyInputPageDown"@[10] == 'P');
    assert("UIKeyInputHome"@.len() == 14 && "UIKeyInputHome"@[10] == 'H');
    assert("UIKeyInputEnd"@.len() == 13 && "UIKeyInputEnd"@[10] == 'E');
    assert("UIKeyInputDelete"@.len() == 16 && "UIKeyInputDelete"@[10] == 'D');
    assert("\u{8}"@[0] == '\u{8}' && "\r"@[0] == '\r' && "\t"@[0] == '\t' && " "@[0] == ' ');
    assert("\u{8}"@.len() == 1 && "\r"@.len() == 1 && "\t"@.len() == 1 && " "@.len() == 1);
}

proof fn lemma_digits_value(n: nat)
    ensures
        digits_value(decimal(n)) == n,
    decreases n,
{
    law_a_notation_stands_for_its_number(n);
    if n >= 10 {
        lemma_digits_value(n / 10);
        assert(decimal(n).drop_last() =~= decimal(n / 10));
    } else {
        assert(decimal(n).drop_last() =~= Seq::<char>::empty());
        assert(digits_value(decimal(n).drop_last()) == 0);
    }
    assert(decimal(n).last() == crate::text::digit(n % 10)) by {
        if n < 10 {
            assert(n % 10 == n);
        }
    }
    assert(crate::text::digit(n % 10) as int == n % 10 + 48);
}

/// The twelve function keys have the inputs of their numbers; there is no thirteenth, and none before
/// the first.
pub proof fn law_function_keys_have_their_numbers(n: nat)
    ensures
        1 <= n <= 12 ==> key_input("f"@ + decimal(n)) == Some("UIKeyInputF"@ + decimal(n)),
        n == 0 || n > 12 ==> key_input("f"@ + decimal(n)) is None,
{
    reveal_strlit("f");
    reveal_strlit("escape");
    reveal_strlit("UIKeyInputEscape");
    reveal_strlit("up");
    reveal_strlit("UIKeyInputUpArrow");
    reveal_strlit("down");
    reveal_strlit("UIKeyInputDownArrow");
    reveal_strlit("left");
    reveal_strlit("UIKeyInputLeftArrow");
    reveal_strlit("right");
    reveal_strlit("UIKeyInputRightArrow");
    reveal_strlit("pageup");
    reveal_strlit("UIKeyInputPageUp");
    reveal_strlit("pagedown");
    reveal_strlit("UIKeyInputPageDown");
    reveal_strlit("home");
    reveal_strlit("UIKeyInputHome");
    reveal_strlit("end");
    reveal_strlit("UIKeyInputEnd");
    reveal_strlit("delete");
    reveal_strlit("UIKeyInputDelete");
    reveal_strlit("backspace");
    reveal_strlit("\u{8}");
    reveal_strlit("enter");
    reveal_strlit("\r");
    reveal_strlit("tab");
    reveal_strlit("\t");
    reveal_strlit("space");
    reveal_strlit(" ");
    law_a_notation_stands_for_its_number(n);
    lemma_digits_value(n);
    let key = "f"@ + decimal(n);
    assert(key[0] == 'f');
    assert(key.len() > 1);
    assert(named_input(key) is None);
    assert(key.take(1) =~= "f"@);
    assert(key.skip(1) =~= decimal(n));
    let digits = decimal(n);
    assert(digits[0] != '+') by {
        assert('0' <= digits[0] <= '9');
    }
    assert(unsigned_part(digits) == digits);
    assert forall|i: int| 0 <= i < digits.len() implies is_digit(#[trigger] digits[i]) by {
        assert('0' <= decimal(n)[i] <= '9');
    }
}

/// A key of one character is that character in small letters, and a longer one is a key with a name or
/// a function key, or is none that a menu can show.
pub proof fn law_other_keys_have_no_input(key: Seq<char>)
    ensures
        key.len() == 1 ==> key_input(key) == Some(lowercase(key[0])),
        key.len() == 0 ==> key_input(key) is None,
        key.len() > 1 && key_input(key) is Some ==> {
            ||| named_input(key) is Some
            ||| key[0] == 'f' && exists|n: nat|
                1 <= n <= 12 && key_input(key) == Some("UIKeyInputF"@ + #[trigger] decimal(n))
        },
{
    reveal_strlit("f");
    reveal_strlit("escape");
    reveal_strlit("UIKeyInputEscape");
    reveal_strlit("up");
    reveal_strlit("UIKeyInputUpArrow");
    reveal_strlit("down");
    reveal_strlit("UIKeyInputDownArrow");
    reveal_strlit("left");
    reveal_strlit("UIKeyInputLeftArrow");
    reveal_strlit("right");
    reveal_strlit("UIKeyInputRightArrow");
    reveal_strlit("pageup");
    reveal_strlit("UIKeyInputPageUp");
    reveal_strlit("pagedown");
    reveal_strlit("UIKeyInputPageDown");
    reveal_strlit("home");
    reveal_strlit("UIKeyInputHome");
    reveal_strlit("end");
    reveal_strlit("UIKeyInputEnd");
    reveal_strlit("delete");
    reveal_strlit("UIKeyInputDelete");
    reveal_strlit("backspace");
    reveal_strlit("\u{8}");
    reveal_strlit("enter");
    reveal_strlit("\r");
    reveal_strlit("tab");
    reveal_strlit("\t");
    reveal_strlit("space");
    reveal_strlit(" ");
    if key.len() > 1 && key_input(key) is Some && named_input(key) is None {
        assert(key.take(1)[0] == key[0]);
        let n = function_number(key.skip(1))->0;
        assert(key_input(key) == Some("UIKeyInputF"@ + decimal(n)));
    }
}

/// A binding of an action.
pub open spec fn binds(bindings: Seq<KeyBinding>, action: u64, place: int) -> bool {
    0 <= place < bindings.len() && bindings[place].action == action
}

/// A binding of an action that has no predicate, or one that holds.
pub open spec fn binds_by_default(bindings: Seq<KeyBinding>, action: u64, place: int) -> bool {
    binds(bindings, action, place) && (bindings[place].predicate is None
        || bindings[place].predicate == Some(true))
}

/// The binding that an action shows is one of its own. It is the first of those that hold by default,
/// and where none does the first of all. An action without a binding shows none.
pub proof fn law_an_action_shows_its_first_binding(bindings: Seq<KeyBinding>, action: u64)
    ensures
        shown_binding(bindings, action) is None <==> forall|place: int|
            !#[trigger] binds(bindings, action, place),
        shown_binding(bindings, action) matches Some(place) ==> {
            &&& binds(bindings, action, place)
            &&& binds_by_default(bindings, action, place) ==> forall|other: int|
                #[trigger] binds_by_default(bindings, action, other) ==> place <= other
            &&& !binds_by_default(bindings, action, place) ==> {
                &&& forall|other: int| !#[trigger] binds_by_default(bindings, action, other)
                &&& forall|other: int| #[trigger] binds(bindings, action, other) ==> place <= other
            }
        },
{
    lemma_bindings_for(bindings, action);
    let places = bindings_for(bindings, action);
    lemma_first_holding(bindings, places);
    if places.len() > 0 {
        assert(binds(bindings, action, places[0]));
    }
    assert forall|other: int| #[trigger] binds(bindings, action, other) implies exists|i: int|
        0 <= i < places.len() && #[trigger] places[i] == other by {
        assert(places.contains(other));
    }
    if let Some(place) = shown_binding(bindings, action) {
        if first_holding(bindings, places) is Some {
            let k = choose|k: int| 0 <= k < places.len() && places[k] == place;
            assert(binds(bindings, action, places[k]));
            assert(binds_by_default(bindings, action, place)) by {
                assert(holds_by_default(bindings[place]));
                if let Some(holds) = bindings[place].predicate {
                    assert(holds != false);
                    assert(holds);
                }
            }
            assert forall|other: int| #[trigger] binds_by_default(
                bindings,
                action,
                other,
            ) implies place <= other by {
                assert(binds(bindings, action, other));
                let i = choose|i: int| 0 <= i < places.len() && #[trigger] places[i] == other;
                assert(holds_by_default(bindings[places[i]]));
            }
        } else {
            assert forall|other: int| !#[trigger] binds_by_default(bindings, action, other) by {
                if binds_by_default(bindings, action, other) {
                    assert(binds(bindings, action, other));
                    let i = choose|i: int| 0 <= i < places.len() && #[trigger] places[i] == other;
                    assert(holds_by_default(bindings[places[i]]));
                }
            }
            assert forall|other: int| #[trigger] binds(bindings, action, other) implies place
                <= other by {
                let i = choose|i: int| 0 <= i < places.len() && #[trigger] places[i] == other;
                if i > 0 {
                    assert(places[0] < places[i]);
                }
            }
        }
    } else {
        assert forall|place: int| !#[trigger] binds(bindings, action, place) by {
            if binds(bindings, action, place) {
                let i = choose|i: int| 0 <= i < places.len() && #[trigger] places[i] == place;
            }
        }
    }
}

proof fn lemma_bindings_for(bindings: Seq<KeyBinding>, action: u64)
    ensures
        forall|i: int|
            0 <= i < bindings_for(bindings, action).len() ==> binds(
                bindings,
                action,
                #[trigger] bindings_for(bindings, action)[i],
            ),
        forall|i: int, j: int|
            0 <= i < j < bindings_for(bindings, action).len() ==> #[trigger] bindings_for(
                bindings,
                action,
            )[i] < #[trigger] bindings_for(bindings, action)[j],
        forall|place: int| #[trigger]
            binds(bindings, action, place) ==> bindings_for(bindings, action).contains(place),
    decreases bindings.len(),
{
    if bindings.len() > 0 {
        let shorter = bindings.drop_last();
        lemma_bindings_for(shorter, action);
        let before = bindings_for(shorter, action);
        let all = bindings_for(bindings, action);
        assert forall|i: int| 0 <= i < all.len() implies binds(
            bindings,
            action,
            #[trigger] all[i],
        ) by {
            if i < before.len() {
                assert(binds(shorter, action, before[i]));
                assert(shorter[before[i]] == bindings[before[i]]);
            }
        }
        assert forall|i: int, j: int| 0 <= i < j < all.len() implies #[trigger] all[i]
            < #[trigger] all[j] by {
            if j < before.len() {
                assert(before[i] < before[j]);
            } else {
                assert(binds(shorter, action, before[i]));
            }
        }
        assert forall|place: int| #[trigger] binds(bindings, action, place) implies all.contains(
            place,
        ) by {
            if place < shorter.len() {
                assert(shorter[place] == bindings[place]);
                assert(binds(shorter, action, place));
                let k = choose|k: int| 0 <= k < before.len() && before[k] == place;
                assert(all[k] == place);
            } else {
                assert(all[all.len() - 1] == place);
            }
        }
    }
}

proof fn lemma_first_holding(bindings: Seq<KeyBinding>, places: Seq<int>)
    requires
        forall|i: int, j: int|
            0 <= i < j < places.len() ==> #[trigger] places[i] < #[trigger] places[j],
    ensures
        first_holding(bindings, places) matches Some(place) ==> {
            &&& places.contains(place)
            &&& holds_by_default(bindings[place])
            &&& forall|i: int|
                0 <= i < places.len() && holds_by_default(bindings[#[trigger] places[i]]) ==> place
                    <= places[i]
        },
        first_holding(bindings, places) is None ==> forall|i: int|
            0 <= i < places.len() ==> !holds_by_default(bindings[#[trigger] places[i]]),
    decreases places.len(),
{
    if places.len() > 0 {
        let shorter = places.drop_last();
        assert forall|i: int, j: int| 0 <= i < j < shorter.len() implies #[trigger] shorter[i]
            < #[trigger] shorter[j] by {
            assert(places[i] < places[j]);
        }
        lemma_first_holding(bindings, shorter);
        if let Some(place) = first_holding(bindings, shorter) {
            let k = choose|k: int| 0 <= k < shorter.len() && shorter[k] == place;
            assert(places[k] == place);
            assert forall|i: int|
                0 <= i < places.len() && holds_by_default(
                    bindings[#[trigger] places[i]],
                ) implies place <= places[i] by {
                if i < shorter.len() {
                    assert(shorter[i] == places[i]);
                } else {
                    assert(places[k] < places[i]);
                }
            }
        } else {
            assert forall|i: int| 0 <= i < shorter.len() implies !holds_by_default(
                bindings[#[trigger] places[i]],
            ) by {
                assert(shorter[i] == places[i]);
            }
            if holds_by_default(bindings[places.last()]) {
                assert(places[places.len() - 1] == places.last());
            }
        }
    }
}

/// A key equivalent is that of the binding which the action shows: the input of its key and the flags
/// of its modifiers. A binding of several keystrokes, or of a key without an input, has none.
pub proof fn law_a_key_equivalent_is_that_of_the_binding(keymap: Keymap, action: u64, place: int)
    requires
        shown_binding(keymap.bindings@, action) == Some(place),
    ensures
        equivalent(keymap, action) is Some <==> keymap.bindings@[place].keystrokes@.len() == 1
            && key_input(keymap.bindings@[place].keystrokes@[0].key@) is Some,
        equivalent(keymap, action) matches Some(key) ==> {
            let keystroke = keymap.bindings@[place].keystrokes@[0];
            &&& key_input(keystroke.key@) == Some(key.input)
            &&& key.modifiers == modifier_flags(keystroke.modifiers)
        },
{
}

/// A plus sign in front of the number of a function key makes no difference, and neither does a zero.
pub proof fn law_signs_and_zeros_make_no_difference(text: Seq<char>)
    requires
        text.len() > 0,
        text[0] != '+',
    ensures
        function_number(seq!['+'] + text) == function_number(text),
        function_number(seq!['0'] + text) == function_number(text),
{
    let signed = seq!['+'] + text;
    assert(signed.skip(1) =~= text);
    assert(unsigned_part(signed) == text);
    assert(unsigned_part(text) == text);
    let padded = seq!['0'] + text;
    assert(unsigned_part(padded) == padded);
    lemma_zero_in_front(text);
    if forall|i: int| 0 <= i < text.len() ==> is_digit(#[trigger] text[i]) {
        assert forall|i: int| 0 <= i < padded.len() implies is_digit(#[trigger] padded[i]) by {
            if i > 0 {
                assert(padded[i] == text[i - 1]);
            }
        }
    }
    if forall|i: int| 0 <= i < padded.len() ==> is_digit(#[trigger] padded[i]) {
        assert forall|i: int| 0 <= i < text.len() implies is_digit(#[trigger] text[i]) by {
            assert(padded[i + 1] == text[i]);
        }
    }
}

proof fn lemma_zero_in_front(text: Seq<char>)
    ensures
        digits_value(seq!['0'] + text) == digits_value(text),
    decreases text.len(),
{
    let padded = seq!['0'] + text;
    if text.len() == 0 {
        assert(padded.drop_last() =~= Seq::<char>::empty());
        assert(digits_value(padded.drop_last()) == 0);
    } else {
        assert(padded.drop_last() =~= seq!['0'] + text.drop_last());
        assert(padded.last() == text.last());
        lemma_zero_in_front(text.drop_last());
    }
}

} // verus!
