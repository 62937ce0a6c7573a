//! The command prompt.
use crate::text::{is_char, occurs_at, occurs_in};
use vstd::prelude::*;

verus! {

/// What is to be seen of the command prompt.
#[derive(Debug)]
pub struct Prompt {
    /// What stands before the input.
    pub prompt: String,
    /// The input.
    pub line: String,
    /// The place of the cursor in the input.
    pub cursor: usize,
    pub completion: Vec<String>,
    /// The completion that is picked, if one is.
    pub completion_selection_index: Option<usize>,
    /// The prompt is done with.
    pub should_close: bool,
}

/// The columns of the screen that one column of completions takes up, the first of them empty.
pub const BASE_WIDTH: u16 = 30;

/// The number of columns of completions that fit side by side.
pub open spec fn grid_columns(width: u16) -> int {
    width as int / BASE_WIDTH as int
}

/// The number of rows that `count` completions take up on a screen that is `width` columns wide.
/// The count is taken to 16 bits.
pub open spec fn grid_rows(count: nat, width: u16) -> int {
    ((count % 0x1_0000) + grid_columns(width) - 1) / grid_columns(width)
}

/// The column of the screen at which completion `i` starts. They fill one column after another.
pub open spec fn slot_x(i: int, rows: int) -> int {
    1 + i / rows * BASE_WIDTH
}

/// The row of completion `i`, counted from the top one.
pub open spec fn slot_y(i: int, rows: int) -> int {
    i % rows
}

/// Every completion has its place on the screen, one column short of `BASE_WIDTH`.
pub proof fn lemma_slot_fits(count: nat, width: u16, i: int)
    requires
        count <= u16::MAX,
        width >= BASE_WIDTH,
        0 <= i < count,
    ensures
        grid_rows(count, width) > 0,
        0 <= i / grid_rows(count, width) < grid_columns(width),
        0 <= slot_y(i, grid_rows(count, width)) < grid_rows(count, width),
        0 < slot_x(i, grid_rows(count, width)),
        slot_x(i, grid_rows(count, width)) + BASE_WIDTH - 1 <= width,
{
    lemma_grid_holds(count, width);
    lemma_slot_in_grid(i, count as int, grid_rows(count, width), grid_columns(width));
}

/// The places of two completions do not overlap.
pub proof fn lemma_slots_are_apart(rows: int, i: int, j: int)
    requires
        rows > 0,
        0 <= i < j,
    ensures
        slot_y(i, rows) != slot_y(j, rows) || slot_x(i, rows) + BASE_WIDTH <= slot_x(j, rows),
{
    vstd::arithmetic::div_mod::lemma_fundamental_div_mod(i, rows);
    vstd::arithmetic::div_mod::lemma_fundamental_div_mod(j, rows);
    vstd::arithmetic::div_mod::lemma_div_is_ordered(i, j, rows);
}

/// Completions fill one column of the screen's grid from the top down and go on in the next one:
/// the one after `q` full columns and `r` more is in row `r` of a column that is `q` times
/// `BASE_WIDTH` further right than the first, which starts one column from the left edge.
pub proof fn lemma_slots_fill_columns(rows: int, q: int, r: int)
    requires
        0 <= r < rows,
        q >= 0,
    ensures
        slot_x(q * rows + r, rows) == 1 + q * 30,
        slot_y(q * rows + r, rows) == r,
{
    vstd::arithmetic::div_mod::lemma_fundamental_div_mod_converse(q * rows + r, rows, q, r);
}

/// As many columns of completions stand side by side as the screen has room for, and they have no
/// more rows than it takes for all completions to find their place. Only the lowest 16 bits of the
/// number of completions count.
pub proof fn lemma_grid_is_tight(count: nat, width: u16)
    requires
        width >= 30,
    ensures
        grid_columns(width) * 30 <= width < (grid_columns(width) + 1) * 30,
        0 < count <= u16::MAX ==> (grid_rows(count, width) - 1) * grid_columns(width) < count
            <= grid_rows(count, width) * grid_columns(width),
        grid_rows(count + 0x1_0000, width) == grid_rows(count, width),
{
    let columns = grid_columns(width);
    let rows = grid_rows(count, width);
    if 0 < count <= u16::MAX {
        lemma_grid_holds(count, width);
        vstd::arithmetic::div_mod::lemma_fundamental_div_mod(count + columns - 1, columns);
        assert((rows - 1) * columns < count) by (nonlinear_arith)
            requires
                count + columns - 1 == columns * rows + (count + columns - 1) % columns,
                (count + columns - 1) % columns >= 0,
        ;
    }
}

/// The rows and columns of the grid have room for all completions.
proof fn lemma_grid_holds(count: nat, width: u16)
    requires
        0 < count <= u16::MAX,
        width >= BASE_WIDTH,
    ensures
        grid_rows(count, width) > 0,
        grid_rows(count, width) * grid_columns(width) >= count,
{
    let columns = grid_columns(width);
    let rows = grid_rows(count, width);
    vstd::arithmetic::div_mod::lemma_fundamental_div_mod(count + columns - 1, columns);
    assert(rows * columns >= count) by (nonlinear_arith)
        requires
            count + columns - 1 == columns * rows + (count + columns - 1) % columns,
            (count + columns - 1) % columns < columns,
    ;
    assert(rows > 0) by (nonlinear_arith)
        requires
            rows * columns >= count,
            count > 0,
            columns >= 1,
    ;
}

/// A completion of the list has its place in the grid.
proof fn lemma_slot_in_grid(i: int, count: int, rows: int, columns: int)
    requires
        0 <= i < count,
        rows > 0,
        rows * columns >= count,
    ensures
        0 <= i / rows < columns,
        0 <= i % rows < rows,
{
    vstd::arithmetic::div_mod::lemma_fundamental_div_mod(i, rows);
    assert(0 <= i / rows < columns) by (nonlinear_arith)
        requires
            i == rows * (i / rows) + i % rows,
            0 <= i % rows < rows,
            0 <= i < count,
            rows > 0,
            rows * columns >= count,
    ;
}

/// The short commands.
pub open spec fn short_commands() -> Seq<Seq<char>> {
    seq!["q"@, "aaa"@, "bbb"@, "ccc"@, "ddd"@, "eee"@]
}

/// The commands that are offered, in the order in which they are.
pub open spec fn commands() -> Seq<Seq<char>> {
    short_commands() + seq![
        "averylongcommandaverylongcommandaverylongcommandaverylongcommandaverylongcommand"@,
    ] + short_commands() + short_commands() + short_commands() + short_commands()
}

/// The contents of a list of strings.
pub open spec fn contents(strings: Seq<String>) -> Seq<Seq<char>> {
    strings.map_values(|s: String| s@)
}

/// The commands in which `input` stands.
pub open spec fn matching_commands(input: Seq<char>) -> Seq<Seq<char>> {
    commands().filter(|command: Seq<char>| occurs_in(input, command))
}

/// `chosen` was taken from `list` at the given places. They come in order, and they are all those at
/// which `input` stands in what is there.
pub open spec fn chosen_from(
    chosen: Seq<Seq<char>>,
    list: Seq<Seq<char>>,
    input: Seq<char>,
    places: Seq<int>,
) -> bool {
    &&& places.len() == chosen.len()
    &&& forall|k: int|
        0 <= k < places.len() ==> 0 <= #[trigger] places[k] < list.len() && list[places[k]]
            == chosen[k]
    &&& forall|j: int, k: int|
        0 <= j < k < places.len() ==> #[trigger] places[j] < #[trigger] places[k]
    &&& forall|i: int|
        0 <= i < list.len() ==> (occurs_in(input, #[trigger] list[i]) <==> places.contains(
            i,
        ))
}

proof fn lemma_filter_chooses(list: Seq<Seq<char>>, input: Seq<char>) -> (places: Seq<int>)
    ensures
        chosen_from(
            list.filter(|command: Seq<char>| occurs_in(input, command)),
            list,
            input,
            places,
        ),
    decreases list.len(),
{
    reveal_with_fuel(Seq::filter, 2);
    let wanted = |command: Seq<char>| occurs_in(input, command);
    if list.len() == 0 {
        Seq::empty()
    } else {
        let last = list.len() - 1;
        let before = lemma_filter_chooses(list.drop_last(), input);
        let places = if wanted(list.last()) {
            before.push(last)
        } else {
            before
        };
        let chosen = list.filter(wanted);
        assert forall|k: int| 0 <= k < places.len() implies 0 <= #[trigger] places[k] < list.len()
            && list[places[k]] == chosen[k] by {
            if k < before.len() {
                assert(places[k] == before[k]);
                assert(list.drop_last()[before[k]] == list[before[k]]);
            }
        }
        assert forall|j: int, k: int| 0 <= j < k < places.len() implies #[trigger] places[j]
            < #[trigger] places[k] by {
            assert(before[j] == places[j]);
            if k < before.len() {
                assert(before[k] == places[k]);
            }
        }
        assert forall|i: int| 0 <= i < list.len() implies (occurs_in(
            input,
            #[trigger] list[i],
        ) <==> places.contains(i)) by {
            if i < last {
                assert(list.drop_last()[i] == list[i]);
                if before.contains(i) {
                    let k = choose|k: int| 0 <= k < before.len() && before[k] == i;
                    assert(places[k] == i);
                }
                if places.contains(i) {
                    let k = choose|k: int| 0 <= k < places.len() && places[k] == i;
                    assert(before[k] == i);
                }
            } else {
                if wanted(list[i]) {
                    assert(places[before.len() as int] == i);
                }
                if places.contains(i) && !wanted(list[i]) {
                    let k = choose|k: int| 0 <= k < places.len() && places[k] == i;
                    assert(before[k] == i);
                }
            }
        }
        places
    }
}

/// Nothing that matches is left out and nothing else is offered: the matching commands are those in
/// which the input stands, each as often and in the same order as among all commands.
pub proof fn lemma_every_match_is_offered(input: Seq<char>) -> (places: Seq<int>)
    ensures
        chosen_from(matching_commands(input), commands(), input, places),
{
    lemma_filter_chooses(commands(), input)
}

/// `str::contains` with a string as the pattern: `needle` is a part of `haystack`.
#[verifier::external_body]
fn str_contains(haystack: &str, needle: &str) -> (found: bool)
    ensures
        found == occurs_in(needle@, haystack@),
{
    haystack.contains(needle)
}

fn push_short_commands(list: &mut Vec<String>)
    ensures
        contents(final(list)@) == contents(old(list)@) + short_commands(),
{
    list.push("q".to_owned());
    list.push("aaa".to_owned());
    list.push("bbb".to_owned());
    list.push("ccc".to_owned());
    list.push("ddd".to_owned());
    list.push("eee".to_owned());
}

/// The commands that are offered.
pub fn command_list() -> (list: Vec<String>)
    ensures
        contents(list@) == commands(),
        // Six short commands, a long one, and the short ones four times more.
        list@.len() == 31,
        list@[6]@.len() == 80,
        forall|k: int|
            0 <= k < 80 ==> #[trigger] list@[6]@[k] == seq![
                'a', 'v', 'e', 'r', 'y', 'l', 'o', 'n', 'g', 'c', 'o', 'm', 'm', 'a', 'n', 'd',
            ][k % 16],
        forall|i: int|
            0 <= i < 31 && i != 6 ==> (#[trigger] list@[i])@ == seq![
                seq!['q'],
                seq!['a', 'a', 'a'],
                seq!['b', 'b', 'b'],
                seq!['c', 'c', 'c'],
                seq!['d', 'd', 'd'],
                seq!['e', 'e', 'e'],
            ][if i < 6 { i } else { (i - 7) % 6 }],
{
    let mut list: Vec<String> = Vec::new();
    push_short_commands(&mut list);
    list.push(
        "averylongcommandaverylongcommandaverylongcommandaverylongcommandaverylongcommand".to_owned(),
    );
    push_short_commands(&mut list);
    push_short_commands(&mut list);
    push_short_commands(&mut list);
    push_short_commands(&mut list);
    proof {
        lemma_commands_are_named();
        assert(contents(list@) =~= commands());
        assert(contents(list@).len() == list@.len());
        assert forall|i: int| 0 <= i < 31 implies (#[trigger] list@[i])@ == commands()[i] by {
            assert(contents(list@)[i] == list@[i]@);
        }
    }
    list
}

/// Which commands there are: six short ones, a long one, and the short ones four times more.
pub proof fn lemma_commands_are_named()
    ensures
        commands().len() == 31,
        commands()[6].len() == 80,
        forall|k: int|
            0 <= k < 80 ==> #[trigger] commands()[6][k] == seq![
                'a', 'v', 'e', 'r', 'y', 'l', 'o', 'n', 'g', 'c', 'o', 'm', 'm', 'a', 'n', 'd',
            ][k % 16],
        forall|i: int|
            0 <= i < 31 && i != 6 ==> #[trigger] commands()[i] == seq![
                seq!['q'],
                seq!['a', 'a', 'a'],
                seq!['b', 'b', 'b'],
                seq!['c', 'c', 'c'],
                seq!['d', 'd', 'd'],
                seq!['e', 'e', 'e'],
            ][if i < 6 { i } else { (i - 7) % 6 }],
{
    reveal_strlit("q");
    reveal_strlit("aaa");
    reveal_strlit("bbb");
    reveal_strlit("ccc");
    reveal_strlit("ddd");
    reveal_strlit("eee");
    reveal_strlit(
        "averylongcommandaverylongcommandaverylongcommandaverylongcommandaverylongcommand",
    );
    let named = seq![
        seq!['q'],
        seq!['a', 'a', 'a'],
        seq!['b', 'b', 'b'],
        seq!['c', 'c', 'c'],
        seq!['d', 'd', 'd'],
        seq!['e', 'e', 'e'],
    ];
    assert("q"@ =~= named[0]);
    assert("aaa"@ =~= named[1]);
    assert("bbb"@ =~= named[2]);
    assert("ccc"@ =~= named[3]);
    assert("ddd"@ =~= named[4]);
    assert("eee"@ =~= named[5]);
    assert(short_commands() =~= named);
}

/// The commands to offer for an input.
pub fn completions(input: &str) -> (matching: Vec<String>)
    ensures
        contents(matching@) == matching_commands(input@),
        forall|i: int|
            0 <= i < matching@.len() ==> occurs_in(input@, (#[trigger] matching@[i])@),
        // Every command in which the input stands is offered, as often as there is such a command
        // and in the same order.
        exists|places: Seq<int>|
            chosen_from(contents(matching@), commands(), input@, places),
{
    let list = command_list();
    let mut matching: Vec<String> = Vec::new();
    let ghost offered = |command: Seq<char>| occurs_in(input@, command);
    let mut i: usize = 0;
    while i < list.len()
        invariant
            i <= list.len(),
            contents(list@) == commands(),
            offered == (|command: Seq<char>| occurs_in(input@, command)),
            contents(matching@) == commands().take(i as int).filter(offered),
            forall|k: int|
                0 <= k < matching@.len() ==> occurs_in(input@, (#[trigger] matching@[k])@),
        decreases list.len() - i,
    {
        if str_contains(list[i].as_str(), input) {
            matching.push(list[i].clone());
        }
        i = i + 1;
        proof {
            reveal_with_fuel(Seq::filter, 2);
            assert(commands().take(i as int).drop_last() =~= commands().take(i - 1));
        }
    }
    assert(commands().take(i as int) =~= commands());
    proof {
        let places = lemma_every_match_is_offered(input@);
    }
    matching
}

/// An input of nothing is offered every command.
pub proof fn lemma_no_input_matches_all()
    ensures
        matching_commands(Seq::empty()) == commands(),
{
    lemma_empty_filter(commands());
}

proof fn lemma_empty_filter(list: Seq<Seq<char>>)
    ensures
        list.filter(|command: Seq<char>| occurs_in(Seq::empty(), command)) == list,
    decreases list.len(),
{
    reveal_with_fuel(Seq::filter, 2);
    if list.len() > 0 {
        lemma_empty_filter(list.drop_last());
        assert(list.last().subrange(0, 0) =~= Seq::<char>::empty());
        assert(occurs_at(Seq::empty(), list.last(), 0));
    }
}

/// The command in `input` closes the editor.
pub fn is_quit(input: &str) -> (quit: bool)
    ensures
        quit == (input@ == seq!['q']),
{
    is_char(input, 'q')
}

} // verus!
