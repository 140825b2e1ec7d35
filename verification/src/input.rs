//! Editing the line at the prompt, key by key.

use vstd::prelude::*;

verus! {

/// A key that was pressed.
pub enum Key {
    Escape,
    Enter,
    Backspace,
    /// A character, and whether the control key was held.
    Character(char, bool),
    Other,
}

/// What is to be shown for a key, or that the line has ended.
pub enum Reaction {
    /// The line is given up.
    Cancel,
    /// The line is complete.
    Submit,
    /// The last character is to be wiped.
    Erase,
    /// The character is to be shown.
    Echo(char),
    Nothing,
}

/// What a key comes to on a line.
pub open spec fn reaction_to(line: Seq<char>, key: Key) -> Reaction {
    match key {
        Key::Escape => Reaction::Cancel,
        Key::Enter => Reaction::Submit,
        Key::Backspace => if line.len() > 0 {
            Reaction::Erase
        } else {
            Reaction::Nothing
        },
        Key::Character(c, control) => if c == 'c' && control {
            Reaction::Cancel
        } else {
            Reaction::Echo(c)
        },
        Key::Other => Reaction::Nothing,
    }
}

/// The line after a key: one character shorter where one is wiped, one longer
/// where one is shown, else the same.
pub open spec fn line_after(line: Seq<char>, key: Key) -> Seq<char> {
    match reaction_to(line, key) {
        Reaction::Erase => line.drop_last(),
        Reaction::Echo(c) => line.push(c),
        _ => line,
    }
}

/// What is read from keys: nothing yet, a line that was given up, or a line.
pub open spec fn line_read(line: Seq<char>, keys: Seq<Key>) -> Option<Option<Seq<char>>>
    decreases keys.len(),
{
    if keys.len() == 0 {
        None
    } else {
        match reaction_to(line, keys[0]) {
            Reaction::Cancel => Some(None),
            Reaction::Submit => Some(Some(line)),
            _ => line_read(line_after(line, keys[0]), keys.drop_first()),
        }
    }
}

/// Takes a key on a line.
pub fn press(line: &mut String, key: Key) -> (r: Reaction)
    ensures
        r == reaction_to(old(line)@, key),
        final(line)@ == line_after(old(line)@, key),
{
    match key {
        Key::Escape => Reaction::Cancel,
        Key::Enter => Reaction::Submit,
        Key::Backspace => {
            match line.pop() {
                Some(_) => Reaction::Erase,
                None => Reaction::Nothing,
            }
        },
        Key::Character(c, control) => {
            if c == 'c' && control {
                return Reaction::Cancel;
            }
            line.push(c);
            Reaction::Echo(c)
        },
        Key::Other => Reaction::Nothing,
    }
}

/// The key is one for a character, and it is shown.
pub open spec fn is_typed(key: Key) -> bool {
    key matches Key::Character(c, control) && !(c == 'c' && control)
}

/// The characters of keys for characters.
pub open spec fn typed_text(keys: Seq<Key>) -> Seq<char> {
    Seq::new(keys.len(), |i: int| keys[i]->Character_0)
}

/// Law: backspace takes back the character before it.
pub proof fn law_backspace(line: Seq<char>, key: Key)
    requires
        reaction_to(line, key) is Echo,
    ensures
        reaction_to(line_after(line, key), Key::Backspace) is Erase,
        line_after(line_after(line, key), Key::Backspace) == line,
{
    assert(line_after(line_after(line, key), Key::Backspace) =~= line);
}

/// Law: a text that is typed and sent is what is read, and one that is given up
/// is not, whatever is typed after that.
pub proof fn law_typed(line: Seq<char>, keys: Seq<Key>, more: Seq<Key>)
    requires
        forall|i: int| 0 <= i < keys.len() ==> is_typed(#[trigger] keys[i]),
    ensures
        line_read(line, keys + seq![Key::Enter] + more) == Some(Some(line + typed_text(keys))),
        line_read(line, keys + seq![Key::Escape] + more) == Some(None::<Seq<char>>),
    decreases keys.len(),
{
    let sent = keys + seq![Key::Enter] + more;
    let left = keys + seq![Key::Escape] + more;
    if keys.len() == 0 {
        assert(sent[0] == Key::Enter);
        assert(left[0] == Key::Escape);
        assert(line + typed_text(keys) =~= line);
    } else {
        let rest = keys.drop_first();
        assert(is_typed(keys[0]));
        assert(sent[0] == keys[0] && left[0] == keys[0]);
        assert(sent.drop_first() =~= rest + seq![Key::Enter] + more);
        assert(left.drop_first() =~= rest + seq![Key::Escape] + more);
        let next = line_after(line, keys[0]);
        law_typed(next, rest, more);
        assert(next + typed_text(rest) =~= line + typed_text(keys));
    }
}

/// Law: a line is given up by escape and by control with `c` alone, sent by
/// enter alone, shortened by backspace alone, and every other character is added
/// to it; whatever is not added or taken off leaves it as it is.
pub proof fn law_keys(line: Seq<char>, key: Key)
    ensures
        reaction_to(line, key) is Cancel <==> key == Key::Escape || key == Key::Character('c', true),
        reaction_to(line, key) is Submit <==> key == Key::Enter,
        reaction_to(line, key) is Erase <==> key == Key::Backspace && line.len() > 0,
        reaction_to(line, key) is Nothing <==> key == Key::Other || (key == Key::Backspace
            && line.len() == 0),
        reaction_to(line, key) matches Reaction::Echo(c) ==> key is Character && c
            == key->Character_0 && line_after(line, key) == line + seq![c],
        reaction_to(line, key) is Erase ==> line_after(line, key) == line.take(line.len() - 1),
        !(reaction_to(line, key) is Echo) && !(reaction_to(line, key) is Erase) ==> line_after(
            line,
            key,
        ) == line,
{
    if let Reaction::Echo(c) = reaction_to(line, key) {
        assert(line_after(line, key) =~= line + seq![c]);
    }
    if reaction_to(line, key) is Erase {
        assert(line_after(line, key) =~= line.take(line.len() - 1));
    }
}

} // verus!
