//! Mapping of key combinations to actions.

use crate::input::{KeyCode, KeyEvent, ALT, CONTROL, SHIFT};
use crate::text::{push_char, push_str};
use vstd::prelude::*;

verus! {

/// The modifier keys held with a key.
#[derive(Clone, Copy, Debug, Default, PartialEq, Eq, Hash, Structural)]
pub struct Modifiers {
    pub ctrl: bool,
    pub alt: bool,
    pub shift: bool,
}

impl Modifiers {
    pub open spec fn spec_none() -> Modifiers {
        Modifiers { ctrl: false, alt: false, shift: false }
    }

    /// No modifier key.
    pub fn none() -> (r: Modifiers)
        ensures
            r == Modifiers::spec_none(),
    {
        Modifiers { ctrl: false, alt: false, shift: false }
    }

    /// The same modifiers, with shift.
    pub fn shift(self) -> (r: Modifiers)
        ensures
            r == (Modifiers { shift: true, ..self }),
    {
        Modifiers { shift: true, ..self }
    }

    /// The same modifiers, with control.
    pub fn ctrl(self) -> (r: Modifiers)
        ensures
            r == (Modifiers { ctrl: true, ..self }),
    {
        Modifiers { ctrl: true, ..self }
    }
}

/// The modifiers that a key event's modifier bits stand for.
pub open spec fn modifiers_of(bits: u8) -> Modifiers {
    Modifiers { ctrl: bits & CONTROL != 0, alt: bits & ALT != 0, shift: bits & SHIFT != 0 }
}

pub fn event_modifiers(bits: u8) -> (r: Modifiers)
    ensures
        r == modifiers_of(bits),
{
    Modifiers { ctrl: bits & CONTROL != 0, alt: bits & ALT != 0, shift: bits & SHIFT != 0 }
}

/// A key with its modifiers, or any character key with its modifiers.
#[derive(Clone, Copy, Debug, PartialEq, Eq, Hash, Structural)]
pub enum KeyCombination {
    Specific(KeyCode, Modifiers),
    AllChars(Modifiers),
}

/// The decimal digit of `d`, for `d < 10`.
pub open spec fn digit(d: int) -> char {
    if d == 0 { '0' } else if d == 1 { '1' } else if d == 2 { '2' } else if d == 3 { '3' }
    else if d == 4 { '4' } else if d == 5 { '5' } else if d == 6 { '6' } else if d == 7 { '7' }
    else if d == 8 { '8' } else { '9' }
}

/// The decimal digits of `n`, without leading zeros.
pub open spec fn decimal(n: nat) -> Seq<char>
    decreases n,
{
    if n < 10 {
        seq![digit(n as int)]
    } else {
        decimal(n / 10).push(digit((n % 10) as int))
    }
}

fn digit_char(d: u8) -> (r: char)
    requires
        d < 10,
    ensures
        r == digit(d as int),
{
    if d == 0 { '0' } else if d == 1 { '1' } else if d == 2 { '2' } else if d == 3 { '3' }
    else if d == 4 { '4' } else if d == 5 { '5' } else if d == 6 { '6' } else if d == 7 { '7' }
    else if d == 8 { '8' } else { '9' }
}

fn push_decimal(out: &mut String, n: u8)
    ensures
        final(out)@ == old(out)@ + decimal(n as nat),
{
    let ghost o = out@;
    if n >= 100 {
        push_char(out, digit_char(n / 100));
    }
    if n >= 10 {
        push_char(out, digit_char((n / 10) % 10));
    }
    push_char(out, digit_char(n % 10));
    proof {
        let k = n as nat;
        if k >= 100 {
            assert(decimal(k / 10) == decimal(k / 100).push(digit(((k / 10) % 10) as int)));
            assert(decimal(k / 100) == seq![digit((k / 100) as int)]);
        } else if k >= 10 {
            assert(decimal(k / 10) == seq![digit((k / 10) as int)]);
        }
        assert(out@ =~= o + decimal(k));
    }
}

/// How the modifiers read in front of a key: `C-` for control, `M-` for
/// alt, `S-` for shift, in that order.
pub open spec fn modifier_prefix(m: Modifiers) -> Seq<char> {
    (if m.ctrl { "C-"@ } else { Seq::empty() }) + (if m.alt { "M-"@ } else { Seq::empty() }) + (
    if m.shift { "S-"@ } else { Seq::empty() })
}

/// How a key reads.
pub open spec fn key_name(code: KeyCode) -> Seq<char> {
    match code {
        KeyCode::Backspace => "Backspace"@,
        KeyCode::Enter => "Enter"@,
        KeyCode::Left => "Left"@,
        KeyCode::Right => "Right"@,
        KeyCode::Up => "Up"@,
        KeyCode::Down => "Down"@,
        KeyCode::Home => "Home"@,
        KeyCode::End => "End"@,
        KeyCode::PageUp => "PageUp"@,
        KeyCode::PageDown => "PageDown"@,
        KeyCode::Tab => "Tab"@,
        KeyCode::BackTab => "BackTab"@,
        KeyCode::Delete => "Delete"@,
        KeyCode::Insert => "Insert"@,
        KeyCode::F(i) => seq!['F'] + decimal(i as nat),
        KeyCode::Char(c) => if c == ' ' {
            "Space"@
        } else if c == '*' {
            "'*'"@
        } else if c == ',' {
            "','"@
        } else {
            seq![c]
        },
        KeyCode::Null => "<null>"@,
        KeyCode::Esc => "Esc"@,
    }
}

/// How a key combination reads: its modifiers, then its key; a binding of
/// every character reads `?`.
pub open spec fn combo_text(k: KeyCombination) -> Seq<char> {
    match k {
        KeyCombination::Specific(code, m) => modifier_prefix(m) + key_name(code),
        KeyCombination::AllChars(_) => "?"@,
    }
}

fn push_key_name(out: &mut String, code: KeyCode)
    ensures
        final(out)@ == old(out)@ + key_name(code),
{
    match code {
        KeyCode::Backspace => push_str(out, "Backspace"),
        KeyCode::Enter => push_str(out, "Enter"),
        KeyCode::Left => push_str(out, "Left"),
        KeyCode::Right => push_str(out, "Right"),
        KeyCode::Up => push_str(out, "Up"),
        KeyCode::Down => push_str(out, "Down"),
        KeyCode::Home => push_str(out, "Home"),
        KeyCode::End => push_str(out, "End"),
        KeyCode::PageUp => push_str(out, "PageUp"),
        KeyCode::PageDown => push_str(out, "PageDown"),
        KeyCode::Tab => push_str(out, "Tab"),
        KeyCode::BackTab => push_str(out, "BackTab"),
        KeyCode::Delete => push_str(out, "Delete"),
        KeyCode::Insert => push_str(out, "Insert"),
        KeyCode::F(i) => {
            let ghost o = out@;
            push_char(out, 'F');
            push_decimal(out, i);
            assert(out@ =~= o + key_name(code));
        },
        KeyCode::Char(c) => {
            if c == ' ' {
                push_str(out, "Space");
            } else if c == '*' {
                push_str(out, "'*'");
            } else if c == ',' {
                push_str(out, "','");
            } else {
                push_char(out, c);
            }
        },
        KeyCode::Null => push_str(out, "<null>"),
        KeyCode::Esc => push_str(out, "Esc"),
    }
}

fn push_combo_text(out: &mut String, k: &KeyCombination)
    ensures
        final(out)@ == old(out)@ + combo_text(*k),
{
    let ghost o = out@;
    match k {
        KeyCombination::Specific(code, m) => {
            if m.ctrl {
                push_str(out, "C-");
            }
            if m.alt {
                push_str(out, "M-");
            }
            if m.shift {
                push_str(out, "S-");
            }
            push_key_name(out, *code);
            assert(out@ =~= o + combo_text(*k));
        },
        KeyCombination::AllChars(_) => {
            push_str(out, "?");
        },
    }
}

impl KeyCombination {
    /// The combination as it reads in a legend (see `combo_text`).
    pub fn to_string(&self) -> (r: String)
        ensures
            r@ == combo_text(*self),
    {
        let mut out = String::new();
        push_combo_text(&mut out, self);
        proof {
            assert(out@ =~= combo_text(*self));
        }
        out
    }
}

/// The position of a key among the kinds of keys.
pub open spec fn code_tag(c: KeyCode) -> int {
    match c {
        KeyCode::Backspace => 0,
        KeyCode::Enter => 1,
        KeyCode::Left => 2,
        KeyCode::Right => 3,
        KeyCode::Up => 4,
        KeyCode::Down => 5,
        KeyCode::Home => 6,
        KeyCode::End => 7,
        KeyCode::PageUp => 8,
        KeyCode::PageDown => 9,
        KeyCode::Tab => 10,
        KeyCode::BackTab => 11,
        KeyCode::Delete => 12,
        KeyCode::Insert => 13,
        KeyCode::F(_) => 14,
        KeyCode::Char(_) => 15,
        KeyCode::Null => 16,
        KeyCode::Esc => 17,
    }
}

fn code_tag_of(c: KeyCode) -> (r: u8)
    ensures
        r == code_tag(c),
{
    match c {
        KeyCode::Backspace => 0,
        KeyCode::Enter => 1,
        KeyCode::Left => 2,
        KeyCode::Right => 3,
        KeyCode::Up => 4,
        KeyCode::Down => 5,
        KeyCode::Home => 6,
        KeyCode::End => 7,
        KeyCode::PageUp => 8,
        KeyCode::PageDown => 9,
        KeyCode::Tab => 10,
        KeyCode::BackTab => 11,
        KeyCode::Delete => 12,
        KeyCode::Insert => 13,
        KeyCode::F(_) => 14,
        KeyCode::Char(_) => 15,
        KeyCode::Null => 16,
        KeyCode::Esc => 17,
    }
}

/// What tells keys of one kind apart: the function key's number, or the
/// character.
pub open spec fn code_payload(c: KeyCode) -> int {
    match c {
        KeyCode::F(i) => i as int,
        KeyCode::Char(ch) => ch as u32 as int,
        _ => 0,
    }
}

fn code_payload_of(c: KeyCode) -> (r: u32)
    ensures
        r == code_payload(c),
{
    match c {
        KeyCode::F(i) => i as u32,
        KeyCode::Char(ch) => ch as u32,
        _ => 0,
    }
}

pub open spec fn mods_num(m: Modifiers) -> int {
    (if m.ctrl { 1int } else { 0 }) + (if m.alt { 2int } else { 0 }) + (if m.shift { 4int } else { 0 })
}

fn mods_num_of(m: Modifiers) -> (r: u8)
    ensures
        r == mods_num(m),
{
    (if m.ctrl { 1u8 } else { 0 }) + (if m.alt { 2u8 } else { 0 }) + (if m.shift { 4u8 } else { 0 })
}

/// A combination as a triple of numbers: its kind of key (bindings of every
/// character last), what tells keys of that kind apart, and its modifiers.
pub open spec fn combo_parts(k: KeyCombination) -> (int, int, int) {
    match k {
        KeyCombination::Specific(c, m) => (code_tag(c), code_payload(c), mods_num(m)),
        KeyCombination::AllChars(m) => (18, 0, mods_num(m)),
    }
}

/// The order in which a key map keeps its bindings: by the triples of
/// `combo_parts`, lexicographically.
pub open spec fn combo_lt(a: KeyCombination, b: KeyCombination) -> bool {
    let (ta, pa, ma) = combo_parts(a);
    let (tb, pb, mb) = combo_parts(b);
    ta < tb || (ta == tb && (pa < pb || (pa == pb && ma < mb)))
}

fn combo_less(a: &KeyCombination, b: &KeyCombination) -> (r: bool)
    ensures
        r == combo_lt(*a, *b),
{
    let (ta, pa, ma) = match a {
        KeyCombination::Specific(c, m) => (code_tag_of(*c), code_payload_of(*c), mods_num_of(*m)),
        KeyCombination::AllChars(m) => (18u8, 0u32, mods_num_of(*m)),
    };
    let (tb, pb, mb) = match b {
        KeyCombination::Specific(c, m) => (code_tag_of(*c), code_payload_of(*c), mods_num_of(*m)),
        KeyCombination::AllChars(m) => (18u8, 0u32, mods_num_of(*m)),
    };
    ta < tb || (ta == tb && (pa < pb || (pa == pb && ma < mb)))
}

proof fn lemma_combo_parts_injective(a: KeyCombination, b: KeyCombination)
    requires
        combo_parts(a) == combo_parts(b),
    ensures
        a == b,
{
    match a {
        KeyCombination::Specific(ca, ma) => {
            match b {
                KeyCombination::Specific(cb, mb) => {
                    match ca {
                        KeyCode::Char(x) => {},
                        _ => {},
                    }
                },
                _ => {},
            }
        },
        _ => {},
    }
}

/// The bindings are in strictly increasing order of their combinations.
pub open spec fn sorted_keys<A>(s: Seq<(KeyCombination, A)>) -> bool {
    forall|i: int, j: int| 0 <= i < j < s.len() ==> combo_lt(#[trigger] s[i].0, #[trigger] s[j].0)
}

/// The map that a list of bindings stands for; a later binding of a
/// combination wins over an earlier one.
pub open spec fn map_of<A>(s: Seq<(KeyCombination, A)>) -> Map<KeyCombination, A>
    decreases s.len(),
{
    if s.len() == 0 {
        Map::empty()
    } else {
        map_of(s.drop_last()).insert(s.last().0, s.last().1)
    }
}

/// No combination is bound twice.
pub open spec fn keys_unique<A>(s: Seq<(KeyCombination, A)>) -> bool {
    forall|i: int, j: int| 0 <= i < j < s.len() ==> #[trigger] s[i].0 != #[trigger] s[j].0
}

proof fn lemma_map_of_index<A>(s: Seq<(KeyCombination, A)>, i: int)
    requires
        keys_unique(s),
        0 <= i < s.len(),
    ensures
        map_of(s).contains_key(s[i].0),
        map_of(s)[s[i].0] == s[i].1,
    decreases s.len(),
{
    if i < s.len() - 1 {
        let t = s.drop_last();
        assert(t[i] == s[i]);
        lemma_map_of_index(t, i);
    }
}

proof fn lemma_map_of_absent<A>(s: Seq<(KeyCombination, A)>, k: KeyCombination)
    requires
        forall|i: int| 0 <= i < s.len() ==> #[trigger] s[i].0 != k,
    ensures
        !map_of(s).contains_key(k),
    decreases s.len(),
{
    if s.len() > 0 {
        let t = s.drop_last();
        assert forall|i: int| 0 <= i < t.len() implies #[trigger] t[i].0 != k by {
            assert(t[i] == s[i]);
        }
        lemma_map_of_absent(t, k);
    }
}

proof fn lemma_map_of_update<A>(s: Seq<(KeyCombination, A)>, i: int, a: A)
    requires
        keys_unique(s),
        0 <= i < s.len(),
    ensures
        map_of(s.update(i, (s[i].0, a))) == map_of(s).insert(s[i].0, a),
    decreases s.len(),
{
    let u = s.update(i, (s[i].0, a));
    if i == s.len() - 1 {
        assert(u.drop_last() =~= s.drop_last());
        let t = s.drop_last();
        assert forall|j: int| 0 <= j < t.len() implies #[trigger] t[j].0 != s[i].0 by {
            assert(t[j] == s[j]);
        }
        lemma_map_of_absent(t, s[i].0);
        assert(map_of(u) =~= map_of(s).insert(s[i].0, a));
    } else {
        let t = s.drop_last();
        assert(u.drop_last() =~= t.update(i, (s[i].0, a)));
        assert(t[i] == s[i]);
        lemma_map_of_update(t, i, a);
        assert(map_of(u) =~= map_of(s).insert(s[i].0, a));
    }
}

proof fn lemma_combo_lt_irrefl(a: KeyCombination)
    ensures
        !combo_lt(a, a),
{
}

proof fn lemma_combo_lt_trans(a: KeyCombination, b: KeyCombination, c: KeyCombination)
    requires
        combo_lt(a, b),
        combo_lt(b, c),
    ensures
        combo_lt(a, c),
{
}

proof fn lemma_combo_total(a: KeyCombination, b: KeyCombination)
    ensures
        a == b || combo_lt(a, b) || combo_lt(b, a),
{
    if combo_parts(a) == combo_parts(b) {
        lemma_combo_parts_injective(a, b);
    }
}

proof fn lemma_sorted_unique_keys<A>(s: Seq<(KeyCombination, A)>)
    requires
        sorted_keys(s),
    ensures
        keys_unique(s),
{
    assert forall|i: int, j: int| 0 <= i < j < s.len() implies #[trigger] s[i].0 != #[trigger] s[j].0 by {
        assert(combo_lt(s[i].0, s[j].0));
        lemma_combo_lt_irrefl(s[i].0);
    }
}

proof fn lemma_map_of_insert_new<A>(s: Seq<(KeyCombination, A)>, i: int, k: KeyCombination, a: A)
    requires
        0 <= i <= s.len(),
        forall|j: int| 0 <= j < s.len() ==> #[trigger] s[j].0 != k,
    ensures
        map_of(s.insert(i, (k, a))) == map_of(s).insert(k, a),
    decreases s.len(),
{
    let u = s.insert(i, (k, a));
    if i == s.len() {
        assert(u.drop_last() =~= s);
    } else {
        let t = s.drop_last();
        assert(u.drop_last() =~= t.insert(i, (k, a)));
        assert forall|j: int| 0 <= j < t.len() implies #[trigger] t[j].0 != k by {
            assert(t[j] == s[j]);
        }
        lemma_map_of_insert_new(t, i, k, a);
        assert(u.last() == s.last());
        assert(s.last().0 != k);
        assert(map_of(u) =~= map_of(s).insert(k, a));
    }
}

/// Two key maps with the same bindings hold them in the same order,
/// whatever order they were made in: what a key map yields, its legend
/// included, depends on its bindings alone.
pub proof fn lemma_same_bindings_same_order<A>(s: Seq<(KeyCombination, A)>, t: Seq<(KeyCombination, A)>)
    requires
        sorted_keys(s),
        sorted_keys(t),
        map_of(s) == map_of(t),
    ensures
        s == t,
    decreases s.len(),
{
    lemma_sorted_unique_keys(s);
    lemma_sorted_unique_keys(t);
    if s.len() == 0 {
        if t.len() > 0 {
            lemma_map_of_index(t, t.len() - 1);
        }
        assert(s =~= t);
    } else {
        if t.len() == 0 {
            lemma_map_of_index(s, s.len() - 1);
        }
        let ks = s.last().0;
        let kt = t.last().0;
        lemma_map_of_index(s, s.len() - 1);
        lemma_map_of_index(t, t.len() - 1);
        if ks != kt {
            if forall|j: int| 0 <= j < t.len() ==> #[trigger] t[j].0 != ks {
                lemma_map_of_absent(t, ks);
            }
            let j = choose|j: int| 0 <= j < t.len() && #[trigger] t[j].0 == ks;
            if forall|j: int| 0 <= j < s.len() ==> #[trigger] s[j].0 != kt {
                lemma_map_of_absent(s, kt);
            }
            let j2 = choose|j: int| 0 <= j < s.len() && #[trigger] s[j].0 == kt;
            assert(combo_lt(t[j].0, kt));
            assert(combo_lt(s[j2].0, ks));
            lemma_combo_lt_trans(ks, kt, ks);
            lemma_combo_lt_irrefl(ks);
        }
        let s1 = s.drop_last();
        let t1 = t.drop_last();
        assert forall|j: int| 0 <= j < s1.len() implies #[trigger] s1[j].0 != ks by {
            assert(s1[j] == s[j]);
        }
        assert forall|j: int| 0 <= j < t1.len() implies #[trigger] t1[j].0 != ks by {
            assert(t1[j] == t[j]);
        }
        lemma_map_of_absent(s1, ks);
        lemma_map_of_absent(t1, ks);
        assert(map_of(s1) =~= map_of(s).remove(ks));
        assert(map_of(t1) =~= map_of(t).remove(ks));
        assert forall|p: int, q: int| 0 <= p < q < s1.len() implies combo_lt(
            #[trigger] s1[p].0,
            #[trigger] s1[q].0,
        ) by {
            assert(combo_lt(s[p].0, s[q].0));
        }
        assert forall|p: int, q: int| 0 <= p < q < t1.len() implies combo_lt(
            #[trigger] t1[p].0,
            #[trigger] t1[q].0,
        ) by {
            assert(combo_lt(t[p].0, t[q].0));
        }
        lemma_same_bindings_same_order(s1, t1);
        assert(s.last().1 == map_of(s)[ks]);
        assert(t.last().1 == map_of(t)[kt]);
        assert(s.last() == t.last());
        assert(s =~= s1.push(s.last()));
        assert(t =~= t1.push(t.last()));
        assert(s =~= t);
    }
}

/// What a key event resolves to: the binding of its exact key and
/// modifiers, else, for a character key, the binding of any character under
/// those modifiers, else nothing.
pub open spec fn resolve<A>(m: Map<KeyCombination, A>, ev: KeyEvent) -> Option<A> {
    let mods = modifiers_of(ev.modifiers);
    if m.contains_key(KeyCombination::Specific(ev.code, mods)) {
        Some(m[KeyCombination::Specific(ev.code, mods)])
    } else if ev.code is Char && m.contains_key(KeyCombination::AllChars(mods)) {
        Some(m[KeyCombination::AllChars(mods)])
    } else {
        None
    }
}

/// Bindings of key combinations to actions of type `A`.
pub struct KeyMap<A> {
    entries: Vec<(KeyCombination, A)>,
}

impl<A> KeyMap<A> {
    /// The bindings, in the order of their combinations (see `combo_lt`).
    pub closed spec fn entries(&self) -> Seq<(KeyCombination, A)> {
        self.entries@
    }

    pub open spec fn view(&self) -> Map<KeyCombination, A> {
        map_of(self.entries())
    }

    /// The bindings are sorted by combination, so no combination is bound
    /// twice, and the bindings are fixed by the map they stand for (see
    /// `lemma_same_bindings_same_order`).
    pub open spec fn wf(&self) -> bool {
        sorted_keys(self.entries())
    }

    pub fn new() -> (r: KeyMap<A>)
        ensures
            r.wf(),
            r.entries().len() == 0,
            r.view() == Map::<KeyCombination, A>::empty(),
    {
        KeyMap { entries: Vec::new() }
    }

    /// The bindings, in the order of their combinations (see `combo_lt`).
    pub fn map(&self) -> (r: &Vec<(KeyCombination, A)>)
        ensures
            r@ == self.entries(),
    {
        &self.entries
    }

    fn find(&self, k: &KeyCombination) -> (r: Option<usize>)
        ensures
            match r {
                Some(i) => i < self.entries().len() && self.entries()[i as int].0 == *k,
                None => forall|i: int| 0 <= i < self.entries().len() ==> #[trigger] self.entries()[i].0 != *k,
            },
    {
        let mut i: usize = 0;
        while i < self.entries.len()
            invariant
                i <= self.entries@.len(),
                forall|j: int| 0 <= j < i ==> #[trigger] self.entries@[j].0 != *k,
            decreases self.entries@.len() - i,
        {
            if self.entries[i].0 == *k {
                return Some(i);
            }
            i += 1;
        }
        None
    }

    /// Binds `k` to `a`, in place of any earlier binding of `k`.
    pub fn insert(&mut self, k: KeyCombination, a: A)
        requires
            old(self).wf(),
        ensures
            final(self).wf(),
            final(self).view() == old(self).view().insert(k, a),
    {
        proof {
            lemma_sorted_unique_keys(self.entries@);
        }
        let ghost s = self.entries@;
        let mut i: usize = 0;
        while i < self.entries.len() && combo_less(&self.entries[i].0, &k)
            invariant
                self.entries@ == s,
                i <= s.len(),
                forall|j: int| 0 <= j < i ==> combo_lt(#[trigger] s[j].0, k),
            decreases s.len() - i,
        {
            i += 1;
        }
        if i < self.entries.len() && self.entries[i].0 == k {
            proof {
                lemma_map_of_update(s, i as int, a);
                assert(s.update(i as int, (s[i as int].0, a)) == s.update(i as int, (k, a)));
            }
            self.entries.set(i, (k, a));
            proof {
                assert forall|p: int, q: int| 0 <= p < q < self.entries@.len() implies combo_lt(
                    #[trigger] self.entries@[p].0,
                    #[trigger] self.entries@[q].0,
                ) by {
                    assert(combo_lt(s[p].0, s[q].0));
                }
            }
        } else {
            proof {
                if i < s.len() {
                    lemma_combo_total(s[i as int].0, k);
                }
                assert forall|j: int| 0 <= j < s.len() implies #[trigger] s[j].0 != k by {
                    if j >= i {
                        if j > i {
                            assert(combo_lt(s[i as int].0, s[j].0));
                            lemma_combo_lt_trans(k, s[i as int].0, s[j].0);
                        }
                        lemma_combo_lt_irrefl(k);
                    } else {
                        lemma_combo_lt_irrefl(k);
                    }
                }
                lemma_map_of_insert_new(s, i as int, k, a);
            }
            self.entries.insert(i, (k, a));
            proof {
                let t = self.entries@;
                assert forall|p: int, q: int| 0 <= p < q < t.len() implies combo_lt(
                    #[trigger] t[p].0,
                    #[trigger] t[q].0,
                ) by {
                    if q < i {
                        assert(combo_lt(s[p].0, s[q].0));
                    } else if q == i {
                        assert(combo_lt(s[p].0, k));
                    } else if p < i {
                        assert(combo_lt(s[p].0, k));
                        assert(combo_lt(k, s[i as int].0));
                        if q - 1 > i {
                            assert(combo_lt(s[i as int].0, s[q - 1].0));
                            lemma_combo_lt_trans(k, s[i as int].0, s[q - 1].0);
                        }
                        lemma_combo_lt_trans(s[p].0, k, s[q - 1].0);
                    } else if p == i {
                        if q - 1 > i {
                            assert(combo_lt(s[i as int].0, s[q - 1].0));
                            lemma_combo_lt_trans(k, s[i as int].0, s[q - 1].0);
                        }
                    } else {
                        assert(combo_lt(s[p - 1].0, s[q - 1].0));
                    }
                }
            }
        }
    }

    /// Binds the key without modifiers.
    pub fn add_no_mods(&mut self, code: KeyCode, a: A)
        requires
            old(self).wf(),
        ensures
            final(self).wf(),
            final(self).view() == old(self).view().insert(
                KeyCombination::Specific(code, Modifiers::spec_none()),
                a,
            ),
    {
        self.insert(KeyCombination::Specific(code, Modifiers::none()), a);
    }

    /// Binds the key with control.
    pub fn add_ctrl(&mut self, code: KeyCode, a: A)
        requires
            old(self).wf(),
        ensures
            final(self).wf(),
            final(self).view() == old(self).view().insert(
                KeyCombination::Specific(code, Modifiers { ctrl: true, ..Modifiers::spec_none() }),
                a,
            ),
    {
        self.insert(KeyCombination::Specific(code, Modifiers::none().ctrl()), a);
    }

    /// Binds the key with shift.
    pub fn add_shift(&mut self, code: KeyCode, a: A)
        requires
            old(self).wf(),
        ensures
            final(self).wf(),
            final(self).view() == old(self).view().insert(
                KeyCombination::Specific(code, Modifiers { shift: true, ..Modifiers::spec_none() }),
                a,
            ),
    {
        self.insert(KeyCombination::Specific(code, Modifiers::none().shift()), a);
    }

    /// Binds every character key without modifiers.
    pub fn add_char_no_handler(&mut self, a: A)
        requires
            old(self).wf(),
        ensures
            final(self).wf(),
            final(self).view() == old(self).view().insert(
                KeyCombination::AllChars(Modifiers::spec_none()),
                a,
            ),
    {
        self.insert(KeyCombination::AllChars(Modifiers::none()), a);
    }

    /// Binds every character key with shift.
    pub fn add_char_shift(&mut self, a: A)
        requires
            old(self).wf(),
        ensures
            final(self).wf(),
            final(self).view() == old(self).view().insert(
                KeyCombination::AllChars(Modifiers { shift: true, ..Modifiers::spec_none() }),
                a,
            ),
    {
        self.insert(KeyCombination::AllChars(Modifiers::none().shift()), a);
    }

    fn get(&self, k: &KeyCombination) -> (r: Option<&A>)
        requires
            self.wf(),
        ensures
            match r {
                Some(a) => self.view().contains_key(*k) && self.view()[*k] == *a,
                None => !self.view().contains_key(*k),
            },
    {
        match self.find(k) {
            Some(i) => {
                proof {
                    lemma_map_of_index(self.entries@, i as int);
                }
                Some(&self.entries[i].1)
            },
            None => {
                proof {
                    lemma_map_of_absent(self.entries@, *k);
                }
                None
            },
        }
    }

    /// Appends the legend of the bindings to `output`: one line per action
    /// rank, in increasing rank, that lists the combinations bound to actions
    /// of that rank, in the map's order, joined by ` / ` (see `legend_text`).
    pub fn describe(&self, output: &mut String)
        where
            A: LegendAction,
        ensures
            final(output)@ == old(output)@ + legend_text(legend_items(self.entries())),
    {
        let mut es: Vec<LegendEntry> = Vec::new();
        let mut i: usize = 0;
        while i < self.entries.len()
            invariant
                i <= self.entries@.len(),
                es@.len() == i,
                forall|j: int|
                    0 <= j < i ==> items_of(es@)[j] == legend_items(self.entries@)[j],
            decreases self.entries@.len() - i,
        {
            let entry = &self.entries[i];
            let ghost es0 = es@;
            es.push(LegendEntry { rank: entry.1.legend_rank(), label: entry.1.legend_label(), combo: entry.0 });
            proof {
                assert forall|j: int| 0 <= j < i + 1 implies items_of(es@)[j] == legend_items(
                    self.entries@,
                )[j] by {
                    if j < i {
                        assert(es@[j] == es0[j]);
                        assert(items_of(es0)[j] == legend_items(self.entries@)[j]);
                    }
                }
            }
            i += 1;
        }
        proof {
            assert(items_of(es@) =~= legend_items(self.entries@));
        }
        let text = legend(&es);
        push_str(output, text.as_str());
    }

    /// The action that a key event resolves to (see `resolve`).
    pub fn get_action(&self, key_event: KeyEvent) -> (r: Option<&A>)
        requires
            self.wf(),
        ensures
            match r {
                Some(a) => resolve(self.view(), key_event) == Some(*a),
                None => resolve(self.view(), key_event) is None,
            },
    {
        let modifiers = event_modifiers(key_event.modifiers);
        if let Some(action) = self.get(&KeyCombination::Specific(key_event.code, modifiers)) {
            return Some(action);
        }
        if let KeyCode::Char(_) = key_event.code {
            if let Some(action) = self.get(&KeyCombination::AllChars(modifiers)) {
                return Some(action);
            }
        }
        None
    }
}

/// What a legend needs of an action: where its line goes, and how it reads.
///
/// The rank stands for the order of the actions: distinct actions should
/// have distinct ranks, in the order their lines are to come, since actions
/// of equal rank share one line. An action type whose order no `u64` can
/// follow (strings, say) has to number its actions itself.
pub trait LegendAction {
    /// The action's rank.
    spec fn rank(&self) -> u64;

    /// The action's name in the legend.
    spec fn label(&self) -> Seq<char>;

    fn legend_rank(&self) -> (r: u64)
        ensures
            r == self.rank(),
    ;

    fn legend_label(&self) -> (r: String)
        ensures
            r@ == self.label(),
    ;
}

/// An action given by its rank and its name, for action types that are
/// not verified themselves: a key map of these can be described.
#[derive(Clone, Debug, PartialEq, Eq)]
pub struct NamedAction {
    pub rank: u64,
    pub name: String,
}

impl NamedAction {
    pub fn new(rank: u64, name: String) -> (r: NamedAction)
        ensures
            r.rank == rank,
            r.name@ == name@,
    {
        NamedAction { rank, name }
    }
}

impl LegendAction for NamedAction {
    open spec fn rank(&self) -> u64 {
        self.rank
    }

    open spec fn label(&self) -> Seq<char> {
        self.name@
    }

    fn legend_rank(&self) -> (r: u64) {
        self.rank
    }

    fn legend_label(&self) -> (r: String) {
        self.name.clone()
    }
}

/// The legend items of a list of bindings: each binding's rank and label
/// are those of its action.
pub open spec fn legend_items<A: LegendAction>(s: Seq<(KeyCombination, A)>) -> Seq<LegendItem> {
    s.map_values(|b: (KeyCombination, A)| (b.1.rank(), b.1.label(), b.0))
}

/// One binding as a legend's specification sees it: rank, label and
/// combination.
pub type LegendItem = (u64, Seq<char>, KeyCombination);

/// The items that legend entries stand for.
pub open spec fn items_of(e: Seq<LegendEntry>) -> Seq<LegendItem> {
    e.map_values(|x: LegendEntry| (x.rank, x.label@, x.combo))
}

/// One binding as a legend shows it.
pub struct LegendEntry {
    pub rank: u64,
    pub label: String,
    pub combo: KeyCombination,
}

/// The least rank above `lo` among the entries, if any.
pub open spec fn min_above(e: Seq<LegendItem>, lo: int) -> Option<u64>
    decreases e.len(),
{
    if e.len() == 0 {
        None
    } else {
        let m = min_above(e.drop_last(), lo);
        let r = e.last().0;
        if r > lo {
            match m {
                Some(x) => if x <= r { Some(x) } else { Some(r) },
                None => Some(r),
            }
        } else {
            m
        }
    }
}

/// The texts of the combinations bound to rank `r`, in order, and whether
/// a binding of every character was among them: such a binding reads
/// `<char>`, once per line.
pub open spec fn group_parts(e: Seq<LegendItem>, r: u64) -> (Seq<Seq<char>>, bool)
    decreases e.len(),
{
    if e.len() == 0 {
        (Seq::empty(), false)
    } else {
        let (p, wild) = group_parts(e.drop_last(), r);
        let x = e.last();
        if x.0 != r {
            (p, wild)
        } else {
            match x.2 {
                KeyCombination::Specific(_, _) => (p.push(combo_text(x.2)), wild),
                KeyCombination::AllChars(_) => if wild {
                    (p, wild)
                } else {
                    (p.push("<char>"@), true)
                },
            }
        }
    }
}

/// The label of the first entry of rank `r`.
pub open spec fn label_of(e: Seq<LegendItem>, r: u64) -> Option<Seq<char>>
    decreases e.len(),
{
    if e.len() == 0 {
        None
    } else {
        match label_of(e.drop_last(), r) {
            Some(l) => Some(l),
            None => if e.last().0 == r {
                Some(e.last().1)
            } else {
                None
            },
        }
    }
}

/// The parts joined by ` / `.
pub open spec fn join(p: Seq<Seq<char>>) -> Seq<char>
    decreases p.len(),
{
    if p.len() == 0 {
        Seq::empty()
    } else if p.len() == 1 {
        p[0]
    } else {
        join(p.drop_last()) + " / "@ + p.last()
    }
}

/// `s`, filled up with spaces to `w` characters.
pub open spec fn pad(s: Seq<char>, w: nat) -> Seq<char> {
    if s.len() < w {
        s + Seq::new((w - s.len()) as nat, |_i: int| ' ')
    } else {
        s
    }
}

/// The column the combinations take in a legend line.
pub const KEYS_WIDTH: usize = 17;

/// The legend line of rank `r`: the combinations, padded, then the label.
pub open spec fn legend_line(e: Seq<LegendItem>, r: u64) -> Seq<char> {
    "    "@ + pad(join(group_parts(e, r).0), KEYS_WIDTH as nat) + "  - "@ + match label_of(e, r) {
        Some(l) => l,
        None => Seq::empty(),
    } + "\n"@
}

/// The legend lines of the ranks above `lo`, in increasing rank, and a
/// closing empty line.
pub open spec fn legend_from(e: Seq<LegendItem>, lo: int) -> Seq<char>
    decreases u64::MAX + 1 - lo,
{
    match min_above(e, lo) {
        Some(r) => if lo < r {
            legend_line(e, r) + legend_from(e, r as int)
        } else {
            "\n"@
        },
        None => "\n"@,
    }
}

/// The legend of the entries: one line per rank, in increasing rank.
pub open spec fn legend_text(e: Seq<LegendItem>) -> Seq<char> {
    legend_from(e, -1)
}

fn min_rank_above(e: &Vec<LegendEntry>, lo: Option<u64>) -> (r: Option<u64>)
    ensures
        r == min_above(items_of(e@), lo_int(lo)),
        r matches Some(x) ==> x > lo_int(lo),
{
    let ghost ev = items_of(e@);
    let mut m: Option<u64> = None;
    let mut i: usize = 0;
    while i < e.len()
        invariant
            i <= e@.len(),
            ev == items_of(e@),
            m == min_above(ev.subrange(0, i as int), lo_int(lo)),
            m matches Some(x) ==> x > lo_int(lo),
        decreases e@.len() - i,
    {
        let r = e[i].rank;
        proof {
            assert(ev[i as int].0 == r);
        }
        let above = match lo {
            Some(l) => r > l,
            None => true,
        };
        if above {
            m = match m {
                Some(x) => if x <= r { Some(x) } else { Some(r) },
                None => Some(r),
            };
        }
        i += 1;
        proof {
            assert(ev.subrange(0, i as int).drop_last() =~= ev.subrange(0, i - 1));
        }
    }
    proof {
        assert(ev.subrange(0, e@.len() as int) =~= ev);
    }
    m
}

pub open spec fn lo_int(lo: Option<u64>) -> int {
    match lo {
        Some(x) => x as int,
        None => -1,
    }
}

proof fn lemma_join_push(p: Seq<Seq<char>>, x: Seq<char>)
    ensures
        join(p.push(x)) == if p.len() == 0 {
            x
        } else {
            join(p) + " / "@ + x
        },
{
    assert(p.push(x).drop_last() =~= p);
}

fn push_legend_line(out: &mut String, e: &Vec<LegendEntry>, r: u64)
    ensures
        final(out)@ == old(out)@ + legend_line(items_of(e@), r),
{
    let ghost ev = items_of(e@);
    let mut keys = String::new();
    let mut wild = false;
    let mut count: usize = 0;
    let mut label: Option<usize> = None;
    let mut i: usize = 0;
    while i < e.len()
        invariant
            i <= e@.len(),
            ev == items_of(e@),
            keys@ == join(group_parts(ev.subrange(0, i as int), r).0),
            wild == group_parts(ev.subrange(0, i as int), r).1,
            count == group_parts(ev.subrange(0, i as int), r).0.len(),
            count <= i,
            label_of(ev.subrange(0, i as int), r) == match label {
                Some(j) => Some(e@[j as int].label@),
                None => None::<Seq<char>>,
            },
            label matches Some(j) ==> j < i,
        decreases e@.len() - i,
    {
        let ghost pre = ev.subrange(0, i as int);
        let ghost parts = group_parts(pre, r).0;
        let x = &e[i];
        proof {
            assert(ev[i as int] == (x.rank, x.label@, x.combo));
        }
        if x.rank == r {
            if label.is_none() {
                label = Some(i);
            }
            match x.combo {
                KeyCombination::Specific(_, _) => {
                    if count > 0 {
                        push_str(&mut keys, " / ");
                    }
                    push_combo_text(&mut keys, &x.combo);
                    proof {
                        lemma_join_push(parts, combo_text(x.combo));
                    }
                    count += 1;
                },
                KeyCombination::AllChars(_) => {
                    if !wild {
                        if count > 0 {
                            push_str(&mut keys, " / ");
                        }
                        push_str(&mut keys, "<char>");
                        proof {
                            lemma_join_push(parts, "<char>"@);
                        }
                        count += 1;
                        wild = true;
                    }
                },
            }
        }
        i += 1;
        proof {
            assert(ev.subrange(0, i as int).drop_last() =~= pre);
        }
    }
    proof {
        assert(ev.subrange(0, e@.len() as int) =~= ev);
    }
    let ghost o = out@;
    push_str(out, "    ");
    push_str(out, keys.as_str());
    let n = keys.as_str().unicode_len();
    let ghost before_pad = out@;
    if n < KEYS_WIDTH {
        let mut k: usize = n;
        while k < KEYS_WIDTH
            invariant
                n <= k <= KEYS_WIDTH,
                out@ == before_pad + Seq::new((k - n) as nat, |_i: int| ' '),
            decreases KEYS_WIDTH - k,
        {
            push_char(out, ' ');
            k += 1;
            proof {
                assert(out@ =~= before_pad + Seq::new((k - n) as nat, |_i: int| ' '));
            }
        }
    }
    proof {
        assert(out@ =~= o + "    "@ + pad(keys@, KEYS_WIDTH as nat));
    }
    push_str(out, "  - ");
    match label {
        Some(j) => {
            proof {
                assert(ev[j as int].1 == e@[j as int].label@);
            }
            push_str(out, e[j].label.as_str())
        },
        None => {},
    }
    push_str(out, "\n");
    proof {
        assert(out@ =~= o + legend_line(items_of(e@), r));
    }
}

/// Formats a legend: one line per rank, in increasing rank (see
/// `legend_text`).
pub fn legend(e: &Vec<LegendEntry>) -> (r: String)
    ensures
        r@ == legend_text(items_of(e@)),
{
    let mut out = String::new();
    let mut lo: Option<u64> = None;
    let mut done = false;
    while !done
        invariant
            lo_int(lo) <= u64::MAX,
            !done ==> out@ + legend_from(items_of(e@), lo_int(lo)) == legend_text(items_of(e@)),
            done ==> out@ + "\n"@ == legend_text(items_of(e@)),
        decreases u64::MAX + 2 - lo_int(lo) - if done { 1int } else { 0int },
    {
        let ghost prev = out@;
        match min_rank_above(e, lo) {
            None => {
                done = true;
            },
            Some(r) => {
                push_legend_line(&mut out, e, r);
                proof {
                    assert(out@ + legend_from(items_of(e@), r as int) =~= prev + legend_from(items_of(e@), lo_int(lo)));
                }
                lo = Some(r);
            },
        }
    }
    push_str(&mut out, "\n");
    out
}

impl<A> Default for KeyMap<A> {
    fn default() -> (r: KeyMap<A>)
        ensures
            r.wf(),
            r.view() == Map::<KeyCombination, A>::empty(),
    {
        KeyMap::new()
    }
}

/// A node of a key tree: an action, or the tree of the keys that may follow.
pub enum TreeNode<A> {
    Tree(KeyTree<A>),
    Action(A),
}

impl<A: Default> Default for TreeNode<A> {
    /// The default action.
    fn default() -> (r: TreeNode<A>)
        ensures
            r is Action,
    {
        TreeNode::Action(A::default())
    }
}

/// Bindings of key combinations to actions or to further bindings.
pub struct KeyTree<A> {
    map: KeyMap<TreeNode<A>>,
}

impl<A> Default for KeyTree<A> {
    fn default() -> (r: KeyTree<A>)
        ensures
            r.wf(),
            r.view() == Map::<KeyCombination, TreeNode<A>>::empty(),
    {
        KeyTree::new()
    }
}

impl<A> KeyTree<A> {
    pub open spec fn view(&self) -> Map<KeyCombination, TreeNode<A>> {
        self.spec_map().view()
    }

    pub closed spec fn spec_map(&self) -> KeyMap<TreeNode<A>> {
        self.map
    }

    pub open spec fn wf(&self) -> bool {
        self.spec_map().wf()
    }

    pub fn new() -> (r: KeyTree<A>)
        ensures
            r.wf(),
            r.view() == Map::<KeyCombination, TreeNode<A>>::empty(),
    {
        KeyTree { map: KeyMap::new() }
    }

    pub fn map(&self) -> (r: &KeyMap<TreeNode<A>>)
        ensures
            *r == self.spec_map(),
    {
        &self.map
    }

    pub fn add_no_mods(&mut self, code: KeyCode, a: A)
        requires
            old(self).wf(),
        ensures
            final(self).wf(),
            final(self).view() == old(self).view().insert(
                KeyCombination::Specific(code, Modifiers::spec_none()),
                TreeNode::Action(a),
            ),
    {
        self.map.add_no_mods(code, TreeNode::Action(a))
    }

    pub fn add_ctrl(&mut self, code: KeyCode, a: A)
        requires
            old(self).wf(),
        ensures
            final(self).wf(),
            final(self).view() == old(self).view().insert(
                KeyCombination::Specific(code, Modifiers { ctrl: true, ..Modifiers::spec_none() }),
                TreeNode::Action(a),
            ),
    {
        self.map.add_ctrl(code, TreeNode::Action(a))
    }

    pub fn add_shift(&mut self, code: KeyCode, a: A)
        requires
            old(self).wf(),
        ensures
            final(self).wf(),
            final(self).view() == old(self).view().insert(
                KeyCombination::Specific(code, Modifiers { shift: true, ..Modifiers::spec_none() }),
                TreeNode::Action(a),
            ),
    {
        self.map.add_shift(code, TreeNode::Action(a))
    }

    pub fn add_char_no_handler(&mut self, a: A)
        requires
            old(self).wf(),
        ensures
            final(self).wf(),
            final(self).view() == old(self).view().insert(
                KeyCombination::AllChars(Modifiers::spec_none()),
                TreeNode::Action(a),
            ),
    {
        self.map.add_char_no_handler(TreeNode::Action(a))
    }

    pub fn add_char_shift(&mut self, a: A)
        requires
            old(self).wf(),
        ensures
            final(self).wf(),
            final(self).view() == old(self).view().insert(
                KeyCombination::AllChars(Modifiers { shift: true, ..Modifiers::spec_none() }),
                TreeNode::Action(a),
            ),
    {
        self.map.add_char_shift(TreeNode::Action(a))
    }
}

/// Two key maps with the same bindings have the same legend, whatever
/// order the bindings were made in.
pub proof fn lemma_legend_depends_on_bindings<A: LegendAction>(m1: KeyMap<A>, m2: KeyMap<A>)
    requires
        m1.wf(),
        m2.wf(),
        m1.view() == m2.view(),
    ensures
        legend_text(legend_items(m1.entries())) == legend_text(legend_items(m2.entries())),
{
    lemma_same_bindings_same_order(m1.entries(), m2.entries());
}

/// A key event is resolved by its exact binding wherever there is one, even
/// where a binding of every character under the same modifiers exists too.
pub proof fn lemma_exact_binding_wins<A>(m: Map<KeyCombination, A>, ev: KeyEvent)
    requires
        m.contains_key(KeyCombination::Specific(ev.code, modifiers_of(ev.modifiers))),
    ensures
        resolve(m, ev) == Some(m[KeyCombination::Specific(ev.code, modifiers_of(ev.modifiers))]),
{
}

/// Without an exact binding, a character key under given modifiers resolves
/// to the binding of every character under them.
pub proof fn lemma_char_falls_back<A>(m: Map<KeyCombination, A>, ev: KeyEvent)
    requires
        ev.code is Char,
        !m.contains_key(KeyCombination::Specific(ev.code, modifiers_of(ev.modifiers))),
        m.contains_key(KeyCombination::AllChars(modifiers_of(ev.modifiers))),
    ensures
        resolve(m, ev) == Some(m[KeyCombination::AllChars(modifiers_of(ev.modifiers))]),
{
}

} // verus!
