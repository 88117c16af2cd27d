//! The built-in key mappings of each mode, as tables of keys and actions,
//! and why each table can be stored in a trie: no key of it is another's
//! prefix.
use crate::input::{CursorDirection, Input};
use crate::trie::is_proper_prefix;
use crate::vim::{Action, Mode, MotionKind};
use vstd::prelude::*;

verus! {

/// A table of keys and the actions they run, as the contracts see it.
pub open spec fn table_view(t: Seq<(Vec<Input>, Action)>) -> Seq<(Seq<Input>, Action)> {
    t.map_values(|e: (Vec<Input>, Action)| (e.0@, e.1))
}

/// The mapping a table describes; of two entries with the same keys the
/// earlier one wins.
pub open spec fn table_map(t: Seq<(Seq<Input>, Action)>) -> Map<Seq<Input>, Action>
    decreases t.len(),
{
    if t.len() == 0 {
        Map::empty()
    } else {
        table_map(t.drop_first()).insert(t[0].0, t[0].1)
    }
}

/// A key sequence of one or two keys.
pub open spec fn short_key(k: Seq<Input>) -> bool {
    1 <= k.len() <= 2
}

/// Two short key sequences clash in a trie: they are equal or one is a
/// prefix of the other.
pub open spec fn short_conflict(a: Seq<Input>, b: Seq<Input>) -> bool {
    a[0] == b[0] && (a.len() == 1 || b.len() == 1 || a[1] == b[1])
}

/// Every key sequence of the table is short and none clashes with another.
pub open spec fn bindings_ok(t: Seq<(Seq<Input>, Action)>) -> bool {
    &&& forall|i: int| 0 <= i < t.len() ==> short_key(#[trigger] t[i].0)
    &&& forall|i: int, j: int|
        0 <= i < t.len() && 0 <= j < t.len() && i != j ==> !short_conflict(
            #[trigger] t[i].0,
            #[trigger] t[j].0,
        )
}

/// Entry `i` clashes with none of the entries from `j` on.
spec fn row_ok(t: Seq<(Seq<Input>, Action)>, i: int, j: int) -> bool
    decreases t.len() - j,
{
    j >= t.len() || (!short_conflict(t[i].0, t[j].0) && row_ok(t, i, j + 1))
}

/// The entries from `i` on are short and clash with none after them.
spec fn rows_ok(t: Seq<(Seq<Input>, Action)>, i: int) -> bool
    decreases t.len() - i,
{
    i >= t.len() || (short_key(t[i].0) && row_ok(t, i, i + 1) && rows_ok(t, i + 1))
}

proof fn lemma_row_ok(t: Seq<(Seq<Input>, Action)>, i: int, j: int, k: int)
    requires
        row_ok(t, i, j),
        j <= k < t.len(),
    ensures
        !short_conflict(t[i].0, t[k].0),
    decreases k - j,
{
    if j < k {
        lemma_row_ok(t, i, j + 1, k);
    }
}

proof fn lemma_rows_ok(t: Seq<(Seq<Input>, Action)>, i: int, a: int, b: int)
    requires
        rows_ok(t, i),
        0 <= i <= a < b < t.len(),
    ensures
        short_key(t[a].0),
        short_key(t[b].0),
        !short_conflict(t[a].0, t[b].0),
    decreases a - i,
{
    if i < a {
        lemma_rows_ok(t, i + 1, a, b);
    } else {
        lemma_row_ok(t, a, a + 1, b);
        lemma_rows_short(t, i, b);
    }
}

proof fn lemma_rows_short(t: Seq<(Seq<Input>, Action)>, i: int, a: int)
    requires
        rows_ok(t, i),
        0 <= i <= a < t.len(),
    ensures
        short_key(t[a].0),
    decreases a - i,
{
    if i < a {
        lemma_rows_short(t, i + 1, a);
    }
}

/// Clashing is symmetric.
proof fn lemma_conflict_symmetric(a: Seq<Input>, b: Seq<Input>)
    ensures
        short_conflict(a, b) == short_conflict(b, a),
{
}

/// Checking each entry against the ones after it covers every pair.
proof fn lemma_bindings_ok(t: Seq<(Seq<Input>, Action)>)
    requires
        rows_ok(t, 0),
    ensures
        bindings_ok(t),
{
    assert forall|i: int| 0 <= i < t.len() implies short_key(#[trigger] t[i].0) by {
        lemma_rows_short(t, 0, i);
    }
    assert forall|i: int, j: int|
        0 <= i < t.len() && 0 <= j < t.len() && i != j implies !short_conflict(
        #[trigger] t[i].0,
        #[trigger] t[j].0,
    ) by {
        if i < j {
            lemma_rows_ok(t, 0, i, j);
        } else {
            lemma_rows_ok(t, 0, j, i);
            lemma_conflict_symmetric(t[i].0, t[j].0);
        }
    }
}

/// For short key sequences, clashing is being equal or a proper prefix.
pub proof fn lemma_short_conflict(a: Seq<Input>, b: Seq<Input>)
    requires
        short_key(a),
        short_key(b),
    ensures
        short_conflict(a, b) <==> (a == b || is_proper_prefix(a, b) || is_proper_prefix(b, a)),
{
    if a == b {
        assert(a[0] == b[0]);
    }
    if is_proper_prefix(a, b) {
        assert(b.take(a.len() as int)[0] == a[0]);
    }
    if is_proper_prefix(b, a) {
        assert(a.take(b.len() as int)[0] == b[0]);
    }
    if short_conflict(a, b) {
        if a.len() == 1 && b.len() == 1 {
            assert(a =~= b);
        } else if a.len() == 1 {
            assert(b.take(1) =~= a);
        } else if b.len() == 1 {
            assert(a.take(1) =~= b);
        } else {
            assert(a =~= b);
        }
    }
}

/// The keys of a table are exactly the keys its mapping holds.
pub proof fn lemma_table_map_dom(t: Seq<(Seq<Input>, Action)>, k: Seq<Input>)
    ensures
        table_map(t).dom().contains(k) <==> exists|j: int| 0 <= j < t.len() && #[trigger] t[j].0 == k,
    decreases t.len(),
{
    if t.len() > 0 {
        lemma_table_map_dom(t.drop_first(), k);
        if exists|j: int| 0 <= j < t.len() && #[trigger] t[j].0 == k {
            let j = choose|j: int| 0 <= j < t.len() && #[trigger] t[j].0 == k;
            if j > 0 {
                assert(t.drop_first()[j - 1].0 == k);
            }
        }
        if exists|j: int| 0 <= j < t.drop_first().len() && #[trigger] t.drop_first()[j].0 == k {
            let j = choose|j: int| 0 <= j < t.drop_first().len() && #[trigger] t.drop_first()[j].0 == k;
            assert(t[j + 1].0 == k);
        }
    }
}

/// In a table whose keys do not clash, an entry's keys map to its action.
pub proof fn lemma_table_map_entry(t: Seq<(Seq<Input>, Action)>, j: int)
    requires
        bindings_ok(t),
        0 <= j < t.len(),
    ensures
        table_map(t).dom().contains(t[j].0),
        table_map(t)[t[j].0] == t[j].1,
    decreases t.len(),
{
    lemma_table_map_dom(t, t[j].0);
    if j > 0 {
        let r = t.drop_first();
        assert(bindings_ok(r)) by {
            assert forall|a: int, b: int|
                0 <= a < r.len() && 0 <= b < r.len() && a != b implies !short_conflict(
                #[trigger] r[a].0,
                #[trigger] r[b].0,
            ) by {
                assert(r[a] == t[a + 1] && r[b] == t[b + 1]);
            }
            assert forall|a: int| 0 <= a < r.len() implies short_key(#[trigger] r[a].0) by {
                assert(r[a] == t[a + 1]);
            }
        }
        assert(r[j - 1] == t[j]);
        lemma_table_map_entry(r, j - 1);
        assert(t[0].0 != t[j].0) by {
            assert(!short_conflict(t[0].0, t[j].0));
            assert(short_key(t[0].0) && short_key(t[j].0));
        }
    }
}

/// The arrow keys move the cursor.
pub open spec fn arrow_table() -> Seq<(Seq<Input>, Action)> {
    seq![
        (seq![Input::Arrow(CursorDirection::Left)], Action::Move(CursorDirection::Left)),
        (seq![Input::Arrow(CursorDirection::Right)], Action::Move(CursorDirection::Right)),
        (seq![Input::Arrow(CursorDirection::Up)], Action::Move(CursorDirection::Up)),
        (seq![Input::Arrow(CursorDirection::Down)], Action::Move(CursorDirection::Down)),
    ]
}

/// What a word motion is used for after its keys.
#[derive(Clone, Copy, PartialEq, Eq, Structural, Debug)]
pub enum MotionUse {
    Move,
    Delete,
    Yank,
}

/// The action that uses motion `k` for `u`.
pub open spec fn motion_action(u: MotionUse, k: MotionKind) -> Action {
    match u {
        MotionUse::Move => Action::MotionMove(k),
        MotionUse::Delete => Action::DeleteMotion(k),
        MotionUse::Yank => Action::YankMotion(k),
    }
}

fn make_motion_action(u: MotionUse, k: MotionKind) -> (r: Action)
    ensures
        r == motion_action(u, k),
{
    match u {
        MotionUse::Move => Action::MotionMove(k),
        MotionUse::Delete => Action::DeleteMotion(k),
        MotionUse::Yank => Action::YankMotion(k),
    }
}

/// `w`, `W`, `b` and `B` after `prefix`, each using its motion for `u`.
pub open spec fn motions_table(prefix: Seq<Input>, u: MotionUse) -> Seq<(Seq<Input>, Action)> {
    seq![
        (prefix.push(Input::Char('w')), motion_action(u, MotionKind::Word)),
        (prefix.push(Input::Char('W')), motion_action(u, MotionKind::BigWord)),
        (prefix.push(Input::Char('b')), motion_action(u, MotionKind::Back)),
        (prefix.push(Input::Char('B')), motion_action(u, MotionKind::BigBack)),
    ]
}

/// The character that Ctrl and `c` send.
pub open spec fn ctrl_char(c: u8) -> char {
    (c & 0x1f) as char
}

pub open spec fn key(c: char) -> Seq<Input> {
    seq![Input::Char(c)]
}

pub open spec fn key2(a: char, b: char) -> Seq<Input> {
    seq![Input::Char(a), Input::Char(b)]
}

/// The mappings of normal mode.
pub open spec fn normal_table() -> Seq<(Seq<Input>, Action)> {
    seq![
        (seq![Input::Escape], Action::SetMode(Mode::Normal)),
        (key(ctrl_char(0x75)), Action::MoveRepeat(CursorDirection::Up)),
        (key(ctrl_char(0x64)), Action::MoveRepeat(CursorDirection::Down)),
        (key('h'), Action::Move(CursorDirection::Left)),
        (key('j'), Action::Move(CursorDirection::Down)),
        (key('k'), Action::Move(CursorDirection::Up)),
        (key('l'), Action::Move(CursorDirection::Right)),
        (key('i'), Action::SetMode(Mode::Insert)),
        (key('v'), Action::SetMode(Mode::Visual)),
        (key2('g', 'g'), Action::SeekFirst),
        (key('G'), Action::SeekLast),
        (key('a'), Action::Append),
        (key('o'), Action::OpenLine),
        (key('0'), Action::LineStart),
        (key('$'), Action::LineEnd),
        (key2('y', 'y'), Action::YankLine),
        (key2('d', 'd'), Action::DeleteLine),
        (key('x'), Action::DeleteUnder),
        (key('p'), Action::Paste),
    ] + motions_table(Seq::empty(), MotionUse::Move) + motions_table(key('d'), MotionUse::Delete)
        + motions_table(key('y'), MotionUse::Yank) + seq![
        (key(':'), Action::SetMode(Mode::Command)),
    ] + arrow_table()
}

/// The mappings of insert mode.
pub open spec fn insert_table() -> Seq<(Seq<Input>, Action)> {
    seq![(seq![Input::Escape], Action::SetMode(Mode::Normal))] + arrow_table() + seq![
        (seq![Input::Backspace], Action::DeleteChar),
        (seq![Input::Enter], Action::Newline),
    ]
}

/// The mappings of command mode.
pub open spec fn command_table() -> Seq<(Seq<Input>, Action)> {
    seq![
        (seq![Input::Escape], Action::SetMode(Mode::Normal)),
        (seq![Input::Enter], Action::RunCommand),
        (seq![Input::Backspace], Action::CommandBackspace),
        (seq![Input::Arrow(CursorDirection::Left)], Action::Nothing),
        (seq![Input::Arrow(CursorDirection::Right)], Action::Nothing),
    ]
}

/// The mappings of visual mode.
pub open spec fn visual_table() -> Seq<(Seq<Input>, Action)> {
    seq![(seq![Input::Escape], Action::SetMode(Mode::Normal))] + arrow_table() + seq![
        (seq![Input::Backspace], Action::DeleteChar),
        (seq![Input::Enter], Action::Newline),
        (key('h'), Action::Move(CursorDirection::Left)),
        (key('j'), Action::Move(CursorDirection::Down)),
        (key('k'), Action::Move(CursorDirection::Up)),
        (key('l'), Action::Move(CursorDirection::Right)),
    ]
}

/// The built-in mappings of a mode.
pub open spec fn mode_table(m: Mode) -> Seq<(Seq<Input>, Action)> {
    match m {
        Mode::Normal => normal_table(),
        Mode::Insert => insert_table(),
        Mode::Visual => visual_table(),
        Mode::Command => command_table(),
    }
}

/// No key of a built-in table clashes with another.
pub proof fn lemma_mode_tables_ok(m: Mode)
    ensures
        bindings_ok(mode_table(m)),
{
    reveal_with_fuel(row_ok, 40);
    reveal_with_fuel(rows_ok, 40);
    assert(ctrl_char(0x75) == 0x15 as char && ctrl_char(0x64) == 0x04 as char) by {
        assert(0x75u8 & 0x1f == 0x15) by (bit_vector);
        assert(0x64u8 & 0x1f == 0x04) by (bit_vector);
    }
    match m {
        Mode::Normal => {
            let t = normal_table();
            assert(t.len() == 36);
            assert(rows_ok(t, 0));
            lemma_bindings_ok(t);
        },
        Mode::Insert => {
            assert(rows_ok(insert_table(), 0));
            lemma_bindings_ok(insert_table());
        },
        Mode::Visual => {
            assert(rows_ok(visual_table(), 0));
            lemma_bindings_ok(visual_table());
        },
        Mode::Command => {
            assert(rows_ok(command_table(), 0));
            lemma_bindings_ok(command_table());
        },
    }
}

/// Appends one mapping to a table.
fn push_binding(t: &mut Vec<(Vec<Input>, Action)>, keys: Vec<Input>, a: Action)
    ensures
        table_view(final(t)@) == table_view(old(t)@).push((keys@, a)),
{
    let ghost kv = keys@;
    t.push((keys, a));
    assert(table_view(t@) =~= table_view(old(t)@).push((kv, a)));
}

/// A key sequence of one key.
fn one_key(i: Input) -> (r: Vec<Input>)
    ensures
        r@ == seq![i],
{
    let mut r: Vec<Input> = Vec::new();
    r.push(i);
    assert(r@ =~= seq![i]);
    r
}

/// A key sequence of two keys.
fn two_keys(a: Input, b: Input) -> (r: Vec<Input>)
    ensures
        r@ == seq![a, b],
{
    let mut r: Vec<Input> = Vec::new();
    r.push(a);
    r.push(b);
    assert(r@ =~= seq![a, b]);
    r
}

/// Appends a mapping of one key.
pub fn bind_key(t: &mut Vec<(Vec<Input>, Action)>, i: Input, a: Action)
    ensures
        table_view(final(t)@) == table_view(old(t)@).push((seq![i], a)),
{
    push_binding(t, one_key(i), a);
}

/// Appends a mapping of two keys.
pub fn bind_keys(t: &mut Vec<(Vec<Input>, Action)>, i: Input, j: Input, a: Action)
    ensures
        table_view(final(t)@) == table_view(old(t)@).push((seq![i, j], a)),
{
    push_binding(t, two_keys(i, j), a);
}

/// The arrow keys, each moving the cursor its way.
pub fn arrow_bindings(t: &mut Vec<(Vec<Input>, Action)>)
    ensures
        table_view(final(t)@) == table_view(old(t)@) + arrow_table(),
{
    bind_key(t, Input::Arrow(CursorDirection::Left), Action::Move(CursorDirection::Left));
    bind_key(t, Input::Arrow(CursorDirection::Right), Action::Move(CursorDirection::Right));
    bind_key(t, Input::Arrow(CursorDirection::Up), Action::Move(CursorDirection::Up));
    bind_key(t, Input::Arrow(CursorDirection::Down), Action::Move(CursorDirection::Down));
    assert(table_view(t@) =~= table_view(old(t)@) + arrow_table());
}

/// The keys before a word motion: none, or one.
pub open spec fn prefix_keys(prefix: Option<Input>) -> Seq<Input> {
    match prefix {
        None => Seq::empty(),
        Some(p) => seq![p],
    }
}

/// The four word motions after the key `prefix`, if any, each used for `u`.
pub fn motion_bindings(t: &mut Vec<(Vec<Input>, Action)>, prefix: Option<Input>, u: MotionUse)
    ensures
        table_view(final(t)@) == table_view(old(t)@) + motions_table(prefix_keys(prefix), u),
{
    let suffixes: [char; 4] = ['w', 'W', 'b', 'B'];
    let kinds: [MotionKind; 4] = [
        MotionKind::Word,
        MotionKind::BigWord,
        MotionKind::Back,
        MotionKind::BigBack,
    ];
    let ghost t0 = table_view(t@);
    let ghost want = motions_table(prefix_keys(prefix), u);
    let mut i: usize = 0;
    while i < 4
        invariant
            i <= 4,
            suffixes@ == seq!['w', 'W', 'b', 'B'],
            kinds@ == seq![
                MotionKind::Word,
                MotionKind::BigWord,
                MotionKind::Back,
                MotionKind::BigBack,
            ],
            want == motions_table(prefix_keys(prefix), u),
            table_view(t@) == t0 + want.take(i as int),
        decreases 4 - i,
    {
        let last = Input::Char(suffixes[i]);
        let a = make_motion_action(u, kinds[i]);
        match prefix {
            None => {
                assert(prefix_keys(prefix).push(last) =~= seq![last]);
                bind_key(t, last, a);
            },
            Some(p) => {
                assert(prefix_keys(prefix).push(last) =~= seq![p, last]);
                bind_keys(t, p, last, a);
            },
        }
        assert(want[i as int] == (prefix_keys(prefix).push(last), a));
        assert(want.take(i + 1) =~= want.take(i as int).push(want[i as int]));
        i = i + 1;
    }
    assert(want.take(4) =~= want);
}

} // verus!
