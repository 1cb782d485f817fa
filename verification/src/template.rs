//! Source templates: text in which `#name` stands for a piece of source that is
//! filled in later.
use vstd::prelude::*;

use crate::reading::{stands_between, stands_in};
use crate::text::{chars_of, slice_text, str_eq};

verus! {

/// The characters a slot's name is made of.
pub open spec fn is_name_char(c: char) -> bool {
    ('a' <= c && c <= 'z') || ('A' <= c && c <= 'Z') || ('0' <= c && c <= '9') || c == '_'
}

/// The length of the name that `t` begins with.
pub open spec fn name_len(t: Seq<char>) -> nat
    decreases t.len(),
{
    if t.len() > 0 && is_name_char(t[0]) {
        1 + name_len(t.drop_first())
    } else {
        0
    }
}

/// No slots, to which more are pushed.
pub open spec fn no_slots() -> Seq<(Seq<char>, Seq<char>)> {
    Seq::empty()
}

/// What the first slot called `name` holds.
pub open spec fn slot_text(slots: Seq<(Seq<char>, Seq<char>)>, name: Seq<char>) -> Option<Seq<char>>
    decreases slots.len(),
{
    if slots.len() == 0 {
        None
    } else if slots[0].0 == name {
        Some(slots[0].1)
    } else {
        slot_text(slots.drop_first(), name)
    }
}

/// `t` with the text of its slot in place of each `#name` that has one.
pub open spec fn filled(t: Seq<char>, slots: Seq<(Seq<char>, Seq<char>)>) -> Seq<char>
    decreases t.len(),
{
    if t.len() == 0 {
        Seq::empty()
    } else {
        let rest = t.drop_first();
        let len = name_len(rest);
        match slot_text(slots, rest.take(len as int)) {
            Some(text) if t[0] == '#' && len <= rest.len() => text + filled(
                rest.skip(len as int),
                slots,
            ),
            _ => seq![t[0]] + filled(rest, slots),
        }
    }
}

/// A name is never longer than the text it is read from.
proof fn name_len_bound(t: Seq<char>)
    ensures
        name_len(t) <= t.len(),
    decreases t.len(),
{
    if t.len() > 0 && is_name_char(t[0]) {
        name_len_bound(t.drop_first());
    }
}

/// A template without `#` is filled by itself.
pub proof fn filled_plain(t: Seq<char>, slots: Seq<(Seq<char>, Seq<char>)>)
    requires
        !t.contains('#'),
    ensures
        filled(t, slots) == t,
    decreases t.len(),
{
    if t.len() > 0 {
        assert(t[0] != '#');
        assert(!t.drop_first().contains('#')) by {
            if t.drop_first().contains('#') {
                let i = choose|i: int|
                    0 <= i < t.drop_first().len() && t.drop_first()[i] == '#';
                assert(t[i + 1] == '#');
            }
        }
        filled_plain(t.drop_first(), slots);
        assert(seq![t[0]] + t.drop_first() =~= t);
    } else {
        assert(t =~= Seq::<char>::empty());
    }
}

/// Text without `#` in front of a template comes out unchanged in front of the
/// filled template.
pub proof fn filled_after(
    front: Seq<char>,
    t: Seq<char>,
    slots: Seq<(Seq<char>, Seq<char>)>,
)
    requires
        !front.contains('#'),
    ensures
        filled(front + t, slots) == front + filled(t, slots),
    decreases front.len(),
{
    if front.len() == 0 {
        assert(front + t =~= t);
        assert(front + filled(t, slots) =~= filled(t, slots));
    } else {
        assert(front[0] != '#');
        assert(!front.drop_first().contains('#')) by {
            if front.drop_first().contains('#') {
                let i = choose|i: int|
                    0 <= i < front.drop_first().len() && front.drop_first()[i] == '#';
                assert(front[i + 1] == '#');
            }
        }
        filled_after(front.drop_first(), t, slots);
        assert((front + t).drop_first() =~= front.drop_first() + t);
        assert(seq![front[0]] + (front.drop_first() + filled(t, slots)) =~= front + filled(
            t,
            slots,
        ));
    }
}

/// The name that `name + t` begins with is `name`, where `name` is made of name
/// characters and `t` begins with another one.
proof fn name_len_of_name(name: Seq<char>, t: Seq<char>)
    requires
        forall|i: int| 0 <= i < name.len() ==> is_name_char(#[trigger] name[i]),
        t.len() > 0 ==> !is_name_char(t[0]),
    ensures
        name_len(name + t) == name.len(),
    decreases name.len(),
{
    if name.len() == 0 {
        assert(name + t =~= t);
    } else {
        name_len_of_name(name.drop_first(), t);
        assert((name + t).drop_first() =~= name.drop_first() + t);
    }
}

/// `#name` at the front of a template becomes the text of its slot.
pub proof fn filled_slot(
    name: Seq<char>,
    t: Seq<char>,
    slots: Seq<(Seq<char>, Seq<char>)>,
)
    requires
        forall|i: int| 0 <= i < name.len() ==> is_name_char(#[trigger] name[i]),
        t.len() > 0 ==> !is_name_char(t[0]),
        slot_text(slots, name) is Some,
    ensures
        filled(seq!['#'] + name + t, slots) == slot_text(slots, name)->0 + filled(t, slots),
{
    let whole = seq!['#'] + name + t;
    assert(whole.drop_first() =~= name + t);
    name_len_of_name(name, t);
    assert((name + t).take(name.len() as int) =~= name);
    assert((name + t).skip(name.len() as int) =~= t);
}

/// The name that a text begins with ends where the text does, or before.
proof fn name_len_in_front(a: Seq<char>, b: Seq<char>)
    requires
        b.len() > 0 ==> !is_name_char(b[0]),
    ensures
        name_len(a + b) == name_len(a),
    decreases a.len(),
{
    if a.len() == 0 {
        assert(a + b =~= b);
    } else {
        assert((a + b).drop_first() =~= a.drop_first() + b);
        name_len_in_front(a.drop_first(), b);
    }
}

/// The name of a slot is made of letters, digits and underscores.
pub proof fn names_are_made_of_letters(c: char)
    ensures
        is_name_char(c) <==> 48 <= c as int <= 57 || 65 <= c as int <= 90 || 97 <= c as int <= 122
            || c == '_',
{
}

/// A template that is cut in front of a character which is part of no name is filled piece
/// by piece.
pub proof fn filled_pieces(a: Seq<char>, b: Seq<char>, slots: Seq<(Seq<char>, Seq<char>)>)
    requires
        b.len() > 0 ==> !is_name_char(b[0]),
    ensures
        filled(a + b, slots) == filled(a, slots) + filled(b, slots),
    decreases a.len(),
{
    if a.len() == 0 {
        assert(a + b =~= b);
        assert(filled(a, slots) + filled(b, slots) =~= filled(b, slots));
    } else {
        let rest = a.drop_first();
        let n = name_len(rest) as int;
        assert((a + b).drop_first() =~= rest + b);
        name_len_in_front(rest, b);
        name_len_bound(rest);
        assert((rest + b).take(n) =~= rest.take(n));
        assert((rest + b).skip(n) =~= rest.skip(n) + b);
        filled_pieces(rest, b, slots);
        filled_pieces(rest.skip(n), b, slots);
        match slot_text(slots, rest.take(n)) {
            Some(text) => {
                assert(text + (filled(rest.skip(n), slots) + filled(b, slots)) =~= text + filled(
                    rest.skip(n),
                    slots,
                ) + filled(b, slots));
            },
            None => {},
        }
        assert(seq![a[0]] + (filled(rest, slots) + filled(b, slots)) =~= seq![a[0]] + filled(
            rest,
            slots,
        ) + filled(b, slots));
    }
}

/// What a piece of a template is filled with stands in the filled template.
pub proof fn filled_part(
    t: Seq<char>,
    from: int,
    to: int,
    slots: Seq<(Seq<char>, Seq<char>)>,
)
    requires
        0 <= from <= to <= t.len(),
        from < t.len() ==> !is_name_char(t[from]),
        to < t.len() ==> !is_name_char(t[to]),
    ensures
        stands_in(filled(t.subrange(from, to), slots), filled(t, slots)),
{
    let a = t.take(from);
    let b = t.subrange(from, to);
    let c = t.skip(to);
    assert(t =~= a + (b + c));
    if b.len() == 0 {
        assert(b + c =~= c);
    }
    filled_pieces(a, b + c, slots);
    filled_pieces(b, c, slots);
    stands_between(filled(a, slots), filled(b, slots), filled(c, slots));
    assert(filled(a, slots) + (filled(b, slots) + filled(c, slots)) =~= filled(a, slots) + filled(
        b,
        slots,
    ) + filled(c, slots));
}

/// Text in front of a slot stays, and the slot is filled.
pub proof fn filled_step(
    front: Seq<char>,
    name: Seq<char>,
    rest: Seq<char>,
    slots: Seq<(Seq<char>, Seq<char>)>,
)
    requires
        !front.contains('#'),
        forall|i: int| 0 <= i < name.len() ==> is_name_char(#[trigger] name[i]),
        rest.len() > 0 ==> !is_name_char(rest[0]),
        slot_text(slots, name) is Some,
    ensures
        filled(front + seq!['#'] + name + rest, slots) == front + slot_text(slots, name)->0
            + filled(rest, slots),
{
    let back = seq!['#'] + name + rest;
    assert(front + seq!['#'] + name + rest =~= front + back);
    filled_after(front, back, slots);
    filled_slot(name, rest, slots);
    assert(front + (slot_text(slots, name)->0 + filled(rest, slots)) =~= front + slot_text(
        slots,
        name,
    )->0 + filled(rest, slots));
}

/// A `#` that no name follows stays.
pub proof fn filled_sign(front: Seq<char>, rest: Seq<char>, slots: Seq<(Seq<char>, Seq<char>)>)
    requires
        !front.contains('#'),
        rest.len() > 0 ==> !is_name_char(rest[0]),
        slot_text(slots, Seq::empty()) is None,
    ensures
        filled(front + seq!['#'] + rest, slots) == front + seq!['#'] + filled(rest, slots),
{
    let back = seq!['#'] + rest;
    assert(front + seq!['#'] + rest =~= front + back);
    filled_after(front, back, slots);
    assert(back.drop_first() =~= rest);
    assert(rest.take(0) =~= Seq::<char>::empty());
    assert(name_len(rest) == 0);
    assert(front + (seq!['#'] + filled(rest, slots)) =~= front + seq!['#'] + filled(rest, slots));
}

/// Where each slot has a name, none is found without one.
pub proof fn unnamed_slot(slots: Seq<(Seq<char>, Seq<char>)>)
    requires
        forall|k: int| 0 <= k < slots.len() ==> (#[trigger] slots[k]).0.len() > 0,
    ensures
        slot_text(slots, Seq::empty()) is None,
    decreases slots.len(),
{
    if slots.len() > 0 {
        assert(slots[0].0 != Seq::<char>::empty());
        assert forall|k: int| 0 <= k < slots.drop_first().len() implies (
        #[trigger] slots.drop_first()[k]).0.len() > 0 by {
            assert(slots.drop_first()[k] == slots[k + 1]);
        }
        unnamed_slot(slots.drop_first());
    }
}

/// A slot is found where no other one of its name stands before it.
pub proof fn slot_at(slots: Seq<(Seq<char>, Seq<char>)>, i: int)
    requires
        0 <= i < slots.len(),
        forall|k: int| 0 <= k < i ==> (#[trigger] slots[k]).0 != slots[i].0,
    ensures
        slot_text(slots, slots[i].0) == Some(slots[i].1),
    decreases slots.len(),
{
    if i > 0 {
        assert(slots[0].0 != slots[i].0);
        let rest = slots.drop_first();
        assert forall|k: int| 0 <= k < i - 1 implies (#[trigger] rest[k]).0 != rest[i - 1].0 by {
            assert(rest[k] == slots[k + 1]);
        }
        slot_at(rest, i - 1);
    }
}

/// The slots of a template: names with the source that stands for them.
pub struct Slots {
    entries: Vec<(String, String)>,
}

impl View for Slots {
    type V = Seq<(Seq<char>, Seq<char>)>;

    closed spec fn view(&self) -> Seq<(Seq<char>, Seq<char>)> {
        self.entries.deep_view()
    }
}

impl Slots {
    /// No slots.
    pub fn new() -> (res: Slots)
        ensures
            res@ == no_slots(),
    {
        let res = Slots { entries: Vec::new() };
        assert(res@ =~= no_slots());
        res
    }

    /// These slots and one more.
    pub fn with(self, name: &str, text: &str) -> (res: Slots)
        ensures
            res@ == self@.push((name@, text@)),
    {
        let mut entries = self.entries;
        entries.push((name.to_string(), text.to_string()));
        let res = Slots { entries };
        assert(res@ =~= self@.push((name@, text@)));
        res
    }

    /// What the first slot called `name` holds.
    fn text_of(&self, name: &str) -> (res: Option<&String>)
        ensures
            match res {
                Some(text) => slot_text(self@, name@) == Some(text@),
                None => slot_text(self@, name@) is None,
            },
    {
        let mut i: usize = 0;
        assert(self@.skip(0) =~= self@);
        while i < self.entries.len()
            invariant
                i <= self.entries.len(),
                self@.len() == self.entries@.len(),
                slot_text(self@, name@) == slot_text(self@.skip(i as int), name@),
            decreases self.entries.len() - i,
        {
            let (key, text) = &self.entries[i];
            assert(self@.skip(i as int)[0] == (key@, text@));
            if str_eq(key.as_str(), name) {
                return Some(text);
            }
            assert(self@.skip(i as int).drop_first() =~= self@.skip(i + 1));
            i += 1;
        }
        None
    }

    /// `template` with each `#name` replaced by its slot's text.
    pub fn fill(&self, template: &str) -> (res: String)
        ensures
            res@ == filled(template@, self@),
    {
        let t = chars_of(template);
        let mut out = String::new();
        let mut i: usize = 0;
        assert(t@.skip(0) =~= template@);
        assert(filled(template@, self@) =~= out@ + filled(t@.skip(0), self@));
        while i < t.len()
            invariant
                t@ == template@,
                i <= t.len(),
                filled(template@, self@) == out@ + filled(t@.skip(i as int), self@),
            decreases t.len() - i,
        {
            let ghost here = t@.skip(i as int);
            let ghost rest = here.drop_first();
            let ghost before = out@;
            assert(rest =~= t@.skip(i + 1));
            let end = name_end(&t, i + 1);
            proof {
                name_len_bound(rest);
                assert(rest.take(name_len(rest) as int) =~= t@.subrange(i + 1, end as int));
            }
            let name = slice_text(&t, i + 1, end);
            let found = if t[i] == '#' {
                self.text_of(name.as_str())
            } else {
                None
            };
            match found {
                Some(text) => {
                    out.append(text.as_str());
                    proof {
                        assert(rest.skip(name_len(rest) as int) =~= t@.skip(end as int));
                        assert(before + (text@ + filled(t@.skip(end as int), self@)) =~= out@
                            + filled(t@.skip(end as int), self@));
                    }
                    i = end;
                },
                None => {
                    out.push(t[i]);
                    proof {
                        assert(before + (seq![here[0]] + filled(rest, self@)) =~= out@ + filled(
                            rest,
                            self@,
                        ));
                    }
                    i += 1;
                },
            }
        }
        assert(filled(template@, self@) =~= out@);
        out
    }
}

/// Where the name that begins at `from` ends.
fn name_end(t: &Vec<char>, from: usize) -> (res: usize)
    requires
        from <= t.len(),
    ensures
        from <= res <= t.len(),
        res - from == name_len(t@.skip(from as int)),
{
    let mut i: usize = from;
    while i < t.len() && is_name_char_exec(t[i])
        invariant
            from <= i <= t.len(),
            name_len(t@.skip(from as int)) == (i - from) + name_len(t@.skip(i as int)),
        decreases t.len() - i,
    {
        assert(t@.skip(i as int).drop_first() =~= t@.skip(i + 1));
        i += 1;
    }
    i
}

/// Whether `c` can stand in the name of a slot.
fn is_name_char_exec(c: char) -> (res: bool)
    ensures
        res == is_name_char(c),
{
    ('a' <= c && c <= 'z') || ('A' <= c && c <= 'Z') || ('0' <= c && c <= '9') || c == '_'
}

} // verus!
