//! The terminal emulator.
//!
//! The emulator itself is the crate `vt100`. A terminal is described here by its feed: the size
//! that it started with, and every piece of data and every change of size since. All that the
//! emulator shows is a function of the feed.

use vstd::prelude::*;
use vstd::utf8::valid_utf8;

use crate::replay::fed_bytes;

verus! {

/// One thing done to a terminal.
pub enum TerminalOp {
    Start { rows: u16, cols: u16, scrollback: usize },
    Data { bytes: Seq<u8> },
    Resize { rows: u16, cols: u16 },
    /// It was copied, without the control sequence that it may have been reading.
    Rest,
}

/// The size, in rows and columns, that a terminal with this feed has: the one set last.
pub open spec fn feed_size(feed: Seq<TerminalOp>) -> (u16, u16)
    decreases feed.len(),
{
    if feed.len() == 0 {
        (0, 0)
    } else {
        match feed.last() {
            TerminalOp::Start { rows, cols, .. } => (rows, cols),
            TerminalOp::Resize { rows, cols } => (rows, cols),
            _ => feed_size(feed.drop_last()),
        }
    }
}

/// The most columns that a terminal with this feed ever had.
pub open spec fn feed_widest(feed: Seq<TerminalOp>) -> u16
    decreases feed.len(),
{
    if feed.len() == 0 {
        0
    } else {
        let before = feed_widest(feed.drop_last());
        match feed.last() {
            TerminalOp::Start { cols, .. } if cols > before => cols,
            TerminalOp::Resize { cols, .. } if cols > before => cols,
            _ => before,
        }
    }
}

/// The most rows that a terminal with this feed ever had.
pub open spec fn feed_tallest(feed: Seq<TerminalOp>) -> u16
    decreases feed.len(),
{
    if feed.len() == 0 {
        0
    } else {
        let before = feed_tallest(feed.drop_last());
        match feed.last() {
            TerminalOp::Start { rows, .. } if rows > before => rows,
            TerminalOp::Resize { rows, .. } if rows > before => rows,
            _ => before,
        }
    }
}

/// The feed of a terminal that has just started and was then given `bytes`.
pub open spec fn started_with(rows: u16, cols: u16, scrollback: usize, bytes: Seq<u8>) -> Seq<
    TerminalOp,
> {
    seq![TerminalOp::Start { rows, cols, scrollback }, TerminalOp::Data { bytes }]
}

/// `ESC [ ? 4 7 l`: show the main screen, and leave both screens as they are.
pub const SHOW_MAIN: [u8; 6] = [0x1b, 0x5b, 0x3f, 0x34, 0x37, 0x6c];

/// `ESC [ ? 4 7 h`: show the alternate screen, and leave both screens as they are.
pub const SHOW_ALTERNATE: [u8; 6] = [0x1b, 0x5b, 0x3f, 0x34, 0x37, 0x68];

/// Whether a terminal of this size can be drawn on: a line can wrap into another one, every
/// character has its place (the widest one, U+17D8, asks for three columns), and the column behind
/// the last tab stop can be counted.
pub open spec fn has_room(rows: u16, cols: u16) -> bool {
    rows >= 2 && 3 <= cols < 65_528
}

/// The rows of the grid for a terminal that was asked to have so many: at least as many as there is
/// room in.
pub open spec fn grid_rows(rows: u16) -> u16 {
    if rows < 2 {
        2
    } else {
        rows
    }
}

/// The columns of the grid for a terminal that was asked to have so many: the nearest number that
/// there is room in.
pub open spec fn grid_cols(cols: u16) -> u16 {
    if cols < 3 {
        3
    } else if cols >= 65_528 {
        65_527
    } else {
        cols
    }
}

/// The rows and columns of the grid for a terminal that was asked to have so many.
pub(crate) fn grid_size(rows: u16, cols: u16) -> (size: (u16, u16))
    ensures
        size == (grid_rows(rows), grid_cols(cols)),
        has_room(size.0, size.1),
{
    let grid_rows: u16 = if rows < 2 {
        2
    } else {
        rows
    };
    let grid_cols: u16 = if cols < 3 {
        3
    } else if cols >= 65_528 {
        65_527
    } else {
        cols
    };
    (grid_rows, grid_cols)
}

/// What a copy of a terminal with this feed has been through once it was given another size.
pub open spec fn trial(feed: Seq<TerminalOp>, rows: u16, cols: u16) -> Seq<TerminalOp> {
    feed.push(TerminalOp::Rest).push(TerminalOp::Resize { rows, cols })
}

/// The same once its other screen is shown.
pub open spec fn other_trial(feed: Seq<TerminalOp>, rows: u16, cols: u16) -> Seq<TerminalOp> {
    let cut = trial(feed, rows, cols);
    cut.push(
        TerminalOp::Data {
            bytes: if shows_alternate(cut) {
                SHOW_MAIN@
            } else {
                SHOW_ALTERNATE@
            },
        },
    )
}

/// Whether no cell of the last column begins a character of two columns.
pub open spec fn has_clear_edge(feed: Seq<TerminalOp>, rows: u16, cols: u16) -> bool {
    forall|row: u16| row < rows ==> !#[trigger] begins_wide(feed, 0, row, (cols - 1) as u16)
}

/// Whether a terminal with this feed can be given this size without cutting a character of two
/// columns in two, on the screen that it shows or on the other one.
pub open spec fn is_uncut(feed: Seq<TerminalOp>, rows: u16, cols: u16) -> bool {
    &&& has_clear_edge(trial(feed, rows, cols), rows, cols)
    &&& has_clear_edge(other_trial(feed, rows, cols), rows, cols)
}

/// Whether a terminal always had room, and never lost columns where that cut a character in two.
pub open spec fn is_unbroken(feed: Seq<TerminalOp>) -> bool
    decreases feed.len(),
{
    if feed.len() == 0 {
        false
    } else {
        match feed.last() {
            TerminalOp::Start { rows, cols, .. } => feed.len() == 1 && has_room(rows, cols),
            TerminalOp::Resize { rows, cols } => {
                &&& is_unbroken(feed.drop_last())
                &&& has_room(rows, cols)
                &&& cols >= feed_size(feed.drop_last()).1 || is_uncut(feed.drop_last(), rows, cols)
            },
            TerminalOp::Data { .. } => is_unbroken(feed.drop_last()),
            TerminalOp::Rest => is_unbroken(feed.drop_last()),
        }
    }
}

/// Whether these bytes do no more than switch between the screens.
pub open spec fn is_switch(bytes: Seq<u8>) -> bool {
    bytes == SHOW_MAIN@ || bytes == SHOW_ALTERNATE@
}

/// Whether a terminal is not in the midst of a character or of a control sequence: since it was
/// copied or started, it was only given another size and switched between its screens.
pub open spec fn is_at_rest(feed: Seq<TerminalOp>) -> bool
    decreases feed.len(),
{
    if feed.len() == 0 {
        false
    } else {
        match feed.last() {
            TerminalOp::Start { .. } => true,
            TerminalOp::Data { bytes } => is_switch(bytes) && is_at_rest(feed.drop_last()),
            TerminalOp::Resize { .. } => is_at_rest(feed.drop_last()),
            TerminalOp::Rest => true,
        }
    }
}

/// Whether these bytes can be given to a terminal with this feed. A switch between the screens
/// draws nothing, so any terminal at rest can be given that.
pub open spec fn drawable(feed: Seq<TerminalOp>, bytes: Seq<u8>) -> bool {
    is_unbroken(feed) || is_at_rest(feed) && is_switch(bytes)
}

/// Whether these bytes may hold `ESC [ ... r`, which sets a scroll region: an `r` behind an `ESC`
/// with no byte between them that could end the sequence.
pub open spec fn may_set_region(bytes: Seq<u8>) -> bool {
    exists|i: int, j: int|
        0 <= i < j < bytes.len() && #[trigger] bytes[i] == 0x1b && #[trigger] bytes[j] == 0x72 && (
        forall|k: int|
            i < k < j ==> #[trigger] bytes[k] == 0x5b || bytes[k] < 0x40 || bytes[k] > 0x7e)
}

/// Whether a terminal lost rows only while it had no scroll region.
pub open spec fn keeps_regions(feed: Seq<TerminalOp>) -> bool
    decreases feed.len(),
{
    if feed.len() == 0 {
        true
    } else {
        keeps_regions(feed.drop_last()) && match feed.last() {
            TerminalOp::Resize { rows, .. } => rows >= feed_size(feed.drop_last()).0
                || !may_set_region(fed_bytes(feed.drop_last())),
            _ => true,
        }
    }
}

/// Whether these bytes hold U+17D8, the one character that asks for three columns.
pub open spec fn holds_widest(bytes: Seq<u8>) -> bool {
    exists|i: int|
        0 <= i < bytes.len() - 2 && #[trigger] bytes[i] == 0xe1 && bytes[i + 1] == 0x9f && bytes[i
            + 2] == 0x98
}

/// Whether the emulator draws a terminal with this feed faithfully: no character on it was cut in
/// two, no scroll region was cut to one line, and it was not given the widest character, which
/// takes fewer columns than it asks for.
pub open spec fn is_steady(feed: Seq<TerminalOp>) -> bool {
    &&& is_unbroken(feed)
    &&& keeps_regions(feed)
    &&& !holds_widest(fed_bytes(feed))
}

/// Whether two terminals show the same: the drawing of the visible lines and the cursor, the
/// screen that is shown, the attributes for text to come and the input modes.
pub open spec fn shows_same(first: Seq<TerminalOp>, second: Seq<TerminalOp>) -> bool {
    &&& formatted_contents(first, 0) == formatted_contents(second, 0)
    &&& shows_alternate(first) == shows_alternate(second)
    &&& formatted_attributes(first) == formatted_attributes(second)
    &&& formatted_input_modes(first) == formatted_input_modes(second)
}

/// `vt100::Screen`, what a terminal shows and remembers.
#[verifier::external_type_specification]
#[verifier::external_body]
pub struct ExScreen(vt100::Screen);

/// A terminal: `vt100::Parser` without callbacks.
#[verifier::external_body]
pub struct Terminal {
    parser: vt100::Parser,
}

/// All that was done to a terminal since it started.
pub uninterp spec fn terminal_feed(terminal: Terminal) -> Seq<TerminalOp>;

/// All that was done to the terminal whose screen this is.
pub uninterp spec fn screen_feed(screen: vt100::Screen) -> Seq<TerminalOp>;

/// How many lines the view of a screen is moved up into its history.
pub uninterp spec fn screen_offset(screen: vt100::Screen) -> nat;

/// How many lines of history a terminal with this feed has above its screen.
pub uninterp spec fn history_length(feed: Seq<TerminalOp>) -> nat;

/// Whether a terminal with this feed shows its alternate screen.
pub uninterp spec fn shows_alternate(feed: Seq<TerminalOp>) -> bool;

/// The control sequences that draw the visible lines of a screen.
pub uninterp spec fn formatted_contents(feed: Seq<TerminalOp>, offset: nat) -> Seq<u8>;

/// The control sequences that set the attributes for text to come.
pub uninterp spec fn formatted_attributes(feed: Seq<TerminalOp>) -> Seq<u8>;

/// The control sequences that set the input modes.
pub uninterp spec fn formatted_input_modes(feed: Seq<TerminalOp>) -> Seq<u8>;

/// The control sequences that draw the first visible line, restricted to some columns.
pub uninterp spec fn formatted_first_row(
    feed: Seq<TerminalOp>,
    offset: nat,
    start: u16,
    width: u16,
) -> Option<Seq<u8>>;

/// Whether a visible cell begins a character of two columns.
pub uninterp spec fn begins_wide(feed: Seq<TerminalOp>, offset: nat, row: u16, col: u16) -> bool;

/// Whether a visible line continues in the next one without a line break.
pub uninterp spec fn row_continues(feed: Seq<TerminalOp>, offset: nat, row: u16) -> bool;

impl Terminal {
    /// `vt100::Parser::new`: a terminal to which nothing else has been done. The emulator counts
    /// the last row and column from the size, so there must be one of each.
    #[verifier::external_body]
    pub(crate) fn new(rows: u16, cols: u16, scrollback: usize) -> (terminal: Terminal)
        requires
            rows > 0,
            cols > 0,
        ensures
            terminal_feed(terminal) == seq![TerminalOp::Start { rows, cols, scrollback }],
    {
        Terminal { parser: vt100::Parser::new(rows, cols, scrollback) }
    }

    /// `vt100::Parser::process`: the bytes are added to the feed.
    ///
    /// The emulator takes for granted that both halves of a wide character are on the grid, that
    /// the grid is as wide as any character, and that a line that wraps at the bottom has a line
    /// above it. Where that may not be so, drawing would stop the calling thread.
    #[verifier::external_body]
    pub(crate) fn process(&mut self, bytes: &[u8])
        requires
            drawable(terminal_feed(*old(self)), bytes@),
        ensures
            terminal_feed(*final(self)) == terminal_feed(*old(self)).push(
                TerminalOp::Data { bytes: bytes@ },
            ),
    {
        self.parser.process(bytes);
    }

    /// `vt100::Screen::set_size` on the terminal's screen: the change of size is added to the
    /// feed.
    #[verifier::external_body]
    pub(crate) fn set_size(&mut self, rows: u16, cols: u16)
        requires
            rows > 0,
            cols > 0,
        ensures
            terminal_feed(*final(self)) == terminal_feed(*old(self)).push(
                TerminalOp::Resize { rows, cols },
            ),
    {
        self.parser.screen_mut().set_size(rows, cols);
    }

    /// A new `vt100::Parser` whose `vt100::Parser::screen_mut` is set to a clone of the terminal's
    /// screen: a copy of both screens, their history and all modes. What the terminal had begun to
    /// read of a control sequence is not copied.
    #[verifier::external_body]
    pub(crate) fn copy(&self) -> (copy: Terminal)
        ensures
            terminal_feed(copy) == terminal_feed(*self).push(TerminalOp::Rest),
    {
        let mut parser = vt100::Parser::new(1, 1, 0);
        *parser.screen_mut() = self.parser.screen().clone();
        Terminal { parser }
    }

    /// `vt100::Parser::screen`: the terminal's own screen, whose view is never moved.
    #[verifier::external_body]
    pub(crate) fn screen(&self) -> (screen: &vt100::Screen)
        ensures
            screen_feed(*screen) == terminal_feed(*self),
            screen_offset(*screen) == 0,
    {
        self.parser.screen()
    }
}

/// `Clone` of `vt100::Screen`: a screen of the same terminal with the same view.
#[verifier::external_body]
pub(crate) fn copy_screen(screen: &vt100::Screen) -> (copy: vt100::Screen)
    ensures
        screen_feed(copy) == screen_feed(*screen),
        screen_offset(copy) == screen_offset(*screen),
{
    screen.clone()
}

/// `vt100::Screen::set_scrollback`: the view is moved up by so many lines, or to the oldest line
/// where there are fewer.
#[verifier::external_body]
pub(crate) fn set_scrollback(screen: &mut vt100::Screen, rows: usize)
    ensures
        screen_feed(*final(screen)) == screen_feed(*old(screen)),
        screen_offset(*final(screen)) == (if rows < history_length(screen_feed(*old(screen))) {
            rows as nat
        } else {
            history_length(screen_feed(*old(screen)))
        }),
{
    screen.set_scrollback(rows);
}

/// `vt100::Screen::scrollback`: how far the view is moved up.
#[verifier::external_body]
pub(crate) fn scrollback(screen: &vt100::Screen) -> (offset: usize)
    ensures
        offset == screen_offset(*screen),
{
    screen.scrollback()
}

/// `vt100::Screen::size`: the rows and columns set last. Nothing in the data changes them.
#[verifier::external_body]
pub(crate) fn size(screen: &vt100::Screen) -> (size: (u16, u16))
    ensures
        size == feed_size(screen_feed(*screen)),
{
    screen.size()
}

/// `vt100::Screen::alternate_screen`.
#[verifier::external_body]
pub(crate) fn alternate_screen(screen: &vt100::Screen) -> (alternate: bool)
    ensures
        alternate == shows_alternate(screen_feed(*screen)),
{
    screen.alternate_screen()
}

/// `vt100::Screen::contents_formatted`: text of the cells, which is UTF-8, between control
/// sequences, which are ASCII.
///
/// They draw the same screen again, as the emulator's documentation says: in a terminal of that
/// size that has just started, behind the lines of history and the switch to the screen that is
/// shown, and before the attributes, the input modes and the wrap mode. They begin by clearing the
/// attributes and the screen, so that nothing of what came before shows; and what follows them sets
/// what they have set already, or what is not drawn.
///
/// Of some screens this is not stated, because the emulator draws them otherwise. Half of
/// a character at the edge is drawn in the next line. In a scroll region of one line, which can be
/// left where rows are lost, the emulator takes the wrong line for continued. And U+17D8 wraps
/// where three columns are not left, though it takes two.
///
/// Of plain text the lines of history come back too, drawn by `vt100::Screen::rows_formatted`, whose
/// documentation says so of every line: they scroll up as they are drawn, and those that have not
/// when the screen is cleared are lost. Of other text this is not stated: a line leaves its
/// attributes to the next one, and a wide character behind a line that continues may be drawn in
/// that line.
#[verifier::external_body]
pub(crate) fn contents_formatted(screen: &vt100::Screen) -> (bytes: Vec<u8>)
    ensures
        bytes@ == formatted_contents(screen_feed(*screen), screen_offset(*screen)),
        valid_utf8(bytes@),
        screen_offset(*screen) == 0 && is_steady(screen_feed(*screen)) ==> draws_again(
            screen_feed(*screen),
            bytes@,
        ),
        screen_offset(*screen) == 0 && is_plain(screen_feed(*screen)) ==> draws_history_again(
            screen_feed(*screen),
            bytes@,
        ),
{
    screen.contents_formatted()
}

/// The control sequences that draw the line that is `offset` lines above the screen, over all
/// columns.
pub open spec fn row_above(feed: Seq<TerminalOp>, offset: nat) -> Seq<u8> {
    match formatted_first_row(feed, offset, 0, feed_size(feed).1) {
        Some(bytes) => bytes,
        None => Seq::empty(),
    }
}

/// The control sequences that draw the last `count` lines above the screen, from the top one down:
/// behind each line there is CR LF, unless it continues.
pub open spec fn rows_above(feed: Seq<TerminalOp>, count: nat) -> Seq<u8>
    decreases count,
{
    if count == 0 {
        Seq::empty()
    } else {
        row_above(feed, count) + (if row_continues(feed, count, 0) {
            Seq::empty()
        } else {
            seq![0x0du8, 0x0au8]
        }) + rows_above(feed, (count - 1) as nat)
    }
}

/// How many lines above the screen are drawn again: all that there are, up to 5000.
pub open spec fn rows_kept(feed: Seq<TerminalOp>) -> nat {
    if history_length(feed) < 5_000 {
        history_length(feed)
    } else {
        5_000
    }
}

/// The control sequences that draw a screen again, where `contents` draws its visible lines: the
/// lines above the main screen and `ESC [ ? 1049 l`, or `ESC [ ? 1049 h` for the alternate screen;
/// then the visible lines, the attributes, the input modes, and `ESC [ ? 7 h` or `ESC [ ? 7 l`.
pub open spec fn redrawing(feed: Seq<TerminalOp>, contents: Seq<u8>, autowrap: bool) -> Seq<u8> {
    (if shows_alternate(feed) {
        seq![0x1bu8, 0x5bu8, 0x3fu8, 0x31u8, 0x30u8, 0x34u8, 0x39u8, 0x68u8]
    } else {
        rows_above(feed, rows_kept(feed)) + seq![
            0x1bu8,
            0x5bu8,
            0x3fu8,
            0x31u8,
            0x30u8,
            0x34u8,
            0x39u8,
            0x6cu8,
        ]
    }) + contents + formatted_attributes(feed) + formatted_input_modes(feed) + (if autowrap {
        seq![0x1bu8, 0x5bu8, 0x3fu8, 0x37u8, 0x68u8]
    } else {
        seq![0x1bu8, 0x5bu8, 0x3fu8, 0x37u8, 0x6cu8]
    })
}

/// Whether these bytes, together with all else that draws a screen again, make a terminal that has
/// just started show what a terminal with this feed shows.
pub open spec fn draws_again(feed: Seq<TerminalOp>, contents: Seq<u8>) -> bool {
    forall|scrollback: usize, autowrap: bool|
        shows_same(
            #[trigger] started_with(
                feed_size(feed).0,
                feed_size(feed).1,
                scrollback,
                redrawing(feed, contents, autowrap),
            ),
            feed,
        )
}

/// Whether a terminal had room, kept its size, and was given plain text: printable ASCII,
/// backspaces, tabs, line feeds and carriage returns.
pub open spec fn is_plain(feed: Seq<TerminalOp>) -> bool {
    &&& is_unbroken(feed)
    &&& forall|i: int| 0 < i < feed.len() ==> #[trigger] feed[i] is Data
    &&& forall|i: int|
        0 <= i < fed_bytes(feed).len() ==> 0x20 <= #[trigger] fed_bytes(feed)[i] <= 0x7e
            || 0x08 <= fed_bytes(feed)[i] <= 0x0a || fed_bytes(feed)[i] == 0x0d
}

/// Whether the history of a terminal is that of another one, from its oldest line on, as far as the
/// other one is drawn again: each line drawn over all columns is the same. The newest lines may be
/// missing, no more of them than there are rows.
pub open spec fn has_history_of(redrawn: Seq<TerminalOp>, feed: Seq<TerminalOp>) -> bool {
    &&& rows_kept(feed) - feed_size(feed).0 <= history_length(redrawn) <= rows_kept(feed)
    &&& forall|line: nat|
        line < history_length(redrawn) ==> #[trigger] formatted_first_row(
            redrawn,
            (history_length(redrawn) - line) as nat,
            0,
            feed_size(feed).1,
        ) == formatted_first_row(feed, (rows_kept(feed) - line) as nat, 0, feed_size(feed).1)
}

/// Whether these bytes, together with all else that draws a screen again, give a terminal that has
/// just started, and that keeps as many lines, the history of a terminal with this feed.
pub open spec fn draws_history_again(feed: Seq<TerminalOp>, contents: Seq<u8>) -> bool {
    forall|scrollback: usize, autowrap: bool|
        scrollback >= rows_kept(feed) ==> has_history_of(
            #[trigger] started_with(
                feed_size(feed).0,
                feed_size(feed).1,
                scrollback,
                redrawing(feed, contents, autowrap),
            ),
            feed,
        )
}

/// `vt100::Screen::attributes_formatted`: ASCII that gives a terminal that has just started the
/// same attributes.
#[verifier::external_body]
pub(crate) fn attributes_formatted(screen: &vt100::Screen) -> (bytes: Vec<u8>)
    ensures
        bytes@ == formatted_attributes(screen_feed(*screen)),
        valid_utf8(bytes@),
        forall|rows: u16, cols: u16, scrollback: usize|
            rows > 0 && cols > 0 ==> formatted_attributes(
                #[trigger] started_with(rows, cols, scrollback, bytes@),
            ) == bytes@,
{
    screen.attributes_formatted()
}

/// `vt100::Screen::input_mode_formatted`: ASCII that gives a terminal that has just started the
/// same input modes.
#[verifier::external_body]
pub(crate) fn input_mode_formatted(screen: &vt100::Screen) -> (bytes: Vec<u8>)
    ensures
        bytes@ == formatted_input_modes(screen_feed(*screen)),
        valid_utf8(bytes@),
        forall|rows: u16, cols: u16, scrollback: usize|
            rows > 0 && cols > 0 ==> formatted_input_modes(
                #[trigger] started_with(rows, cols, scrollback, bytes@),
            ) == bytes@,
{
    screen.input_mode_formatted()
}

/// The first element of `vt100::Screen::rows_formatted`: text of the cells, which is UTF-8,
/// between control sequences, which are ASCII.
#[verifier::external_body]
pub(crate) fn first_row_formatted(screen: &vt100::Screen, start: u16, width: u16) -> (row: Option<
    Vec<u8>,
>)
    requires
        start == 0,
    ensures
        match (
            row,
            formatted_first_row(screen_feed(*screen), screen_offset(*screen), start, width),
        ) {
            (Some(bytes), Some(named)) => bytes@ == named && valid_utf8(bytes@),
            (None, None) => true,
            _ => false,
        },
{
    screen.rows_formatted(start, width).next()
}

/// `vt100::Screen::cell` and `vt100::Cell::is_wide`: whether there is such a cell and a character
/// of two columns begins there.
#[verifier::external_body]
pub(crate) fn is_wide_at(screen: &vt100::Screen, row: u16, col: u16) -> (wide: bool)
    ensures
        wide == begins_wide(screen_feed(*screen), screen_offset(*screen), row, col),
{
    match screen.cell(row, col) {
        Some(cell) => cell.is_wide(),
        None => false,
    }
}

/// `vt100::Screen::row_wrapped`.
#[verifier::external_body]
pub(crate) fn row_wrapped(screen: &vt100::Screen, row: u16) -> (wrapped: bool)
    ensures
        wrapped == row_continues(screen_feed(*screen), screen_offset(*screen), row),
{
    screen.row_wrapped(row)
}

} // verus!
