use vstd::prelude::*;
use crate::frame_ops::{filled, fill_pixels};
use crate::leaderboard::str_chars;
use crate::word_wrap::{lemma_wrapped_text_bounds, lemma_words_bounds, split_whitespace, words_of, wrap_words, wrapped_lines, MAX_LINE_BYTES};
use crate::pixels::{gathered, lemma_gathered_next, lemma_gathered_start, lemma_painted_empty, lemma_painted_insert, lemma_painted_twice, lemma_scanned_next, lemma_scanned_row, lemma_scanned_start, painted, scanned, write_pixel};

verus! {

/// Where a download stands.
#[derive(Clone, Copy, PartialEq, Eq, Debug)]
pub enum DownloadStatus {
    Starting,
    Downloading,
    Completed,
    Error,
}

/// The progress of a download, as the progress window shows it.
#[derive(Clone)]
pub struct DownloadProgress {
    pub downloaded: u64,
    pub total: u64,
    pub status: DownloadStatus,
    pub message: String,
}

impl Default for DownloadProgress {
    /// Nothing downloaded yet, size unknown, starting.
    fn default() -> (p: Self)
        ensures
            p.downloaded == 0,
            p.total == 0,
            p.status == DownloadStatus::Starting,
            p.message@ == "Initializing download..."@,
    {
        DownloadProgress {
            downloaded: 0,
            total: 0,
            status: DownloadStatus::Starting,
            message: "Initializing download...".to_string(),
        }
    }
}

/// What happens to a download.
pub enum DownloadEvent {
    /// The connection to the server is being made.
    Connecting,
    /// The server answered; its announced size, zero when it gave none.
    Connected(u64),
    /// A chunk of this many bytes arrived and was written.
    Received(u64),
    /// Every byte arrived.
    Finished,
    /// The download failed, with the message to show.
    Failed(String),
}

impl DownloadProgress {
    /// Records `event`: the status and message that the progress window shows, the size
    /// the server announced, and the bytes received so far.
    pub fn apply(&mut self, event: DownloadEvent)
        requires
            event matches DownloadEvent::Received(n) ==> old(self).downloaded + n <= u64::MAX,
        ensures
            match event {
                DownloadEvent::Connecting => {
                    &&& final(self).status == DownloadStatus::Downloading
                    &&& final(self).message@ == "Connecting to server..."@
                    &&& final(self).downloaded == old(self).downloaded
                    &&& final(self).total == old(self).total
                },
                DownloadEvent::Connected(total) => {
                    &&& final(self).total == total
                    &&& final(self).message@ == "Downloading audio file..."@
                    &&& final(self).status == old(self).status
                    &&& final(self).downloaded == old(self).downloaded
                },
                DownloadEvent::Received(n) => {
                    &&& final(self).downloaded == old(self).downloaded + n
                    &&& final(self).total == old(self).total
                    &&& final(self).status == old(self).status
                    &&& final(self).message@ == old(self).message@
                },
                DownloadEvent::Finished => {
                    &&& final(self).status == DownloadStatus::Completed
                    &&& final(self).message@ == "Download completed successfully!"@
                    &&& final(self).downloaded == old(self).downloaded
                    &&& final(self).total == old(self).total
                },
                DownloadEvent::Failed(message) => {
                    &&& final(self).status == DownloadStatus::Error
                    &&& final(self).message@ == message@
                    &&& final(self).downloaded == old(self).downloaded
                    &&& final(self).total == old(self).total
                },
            },
    {
        match event {
            DownloadEvent::Connecting => {
                self.status = DownloadStatus::Downloading;
                self.message = "Connecting to server...".to_string();
            },
            DownloadEvent::Connected(total) => {
                self.total = total;
                self.message = "Downloading audio file...".to_string();
            },
            DownloadEvent::Received(n) => {
                self.downloaded = self.downloaded + n;
            },
            DownloadEvent::Finished => {
                self.status = DownloadStatus::Completed;
                self.message = "Download completed successfully!".to_string();
            },
            DownloadEvent::Failed(message) => {
                self.status = DownloadStatus::Error;
                self.message = message;
            },
        }
    }
}

/// What the progress window does after a periodic look at the download.
#[derive(Clone, Copy, PartialEq, Eq, Debug)]
pub enum WatchAction {
    /// The download just completed: start the closing delay.
    StartTimer,
    /// The download just failed: start the closing delay and keep the message to show
    /// in the error window.
    StartTimerKeepError,
    /// The closing delay is over: close the window.
    Close,
    /// Keep waiting.
    Wait,
    /// The download is not finished: forget any closing delay.
    ResetTimer,
}

/// How long the window stays open after completion, in nanoseconds.
pub const COMPLETED_DELAY_NANOS: u128 = 1_500_000_000;

/// How long the window stays open after a failure, in nanoseconds.
pub const FAILED_DELAY_NANOS: u128 = 2_000_000_000;

/// How long the window stays open once the download has ended with `status`, in
/// nanoseconds; none while it has not ended.
pub open spec fn closing_delay(status: DownloadStatus) -> Option<u128> {
    match status {
        DownloadStatus::Completed => Some(COMPLETED_DELAY_NANOS),
        DownloadStatus::Error => Some(FAILED_DELAY_NANOS),
        _ => None,
    }
}

/// Decides what the progress window does after a look at the download.
/// While the download runs, any closing delay is forgotten. Once it has ended, the
/// first look starts the delay (keeping the message if it failed), and later looks
/// close the window once more than the delay has passed and wait until then.
pub fn watch_step(status: DownloadStatus, timer: Option<u128>) -> (action: WatchAction)
    ensures
        closing_delay(status) is None ==> action == WatchAction::ResetTimer,
        closing_delay(status) is Some && timer is None ==> action == (if status == DownloadStatus::Error {
            WatchAction::StartTimerKeepError
        } else {
            WatchAction::StartTimer
        }),
        closing_delay(status) is Some && timer is Some ==> action == (if timer->0 > closing_delay(status)->0 {
            WatchAction::Close
        } else {
            WatchAction::Wait
        }),
{
    match status {
        DownloadStatus::Completed => match timer {
            None => WatchAction::StartTimer,
            Some(elapsed) => if elapsed > COMPLETED_DELAY_NANOS {
                WatchAction::Close
            } else {
                WatchAction::Wait
            },
        },
        DownloadStatus::Error => match timer {
            None => WatchAction::StartTimerKeepError,
            Some(elapsed) => if elapsed > FAILED_DELAY_NANOS {
                WatchAction::Close
            } else {
                WatchAction::Wait
            },
        },
        _ => WatchAction::ResetTimer,
    }
}

/// How long the error window stays open, in nanoseconds.
pub const ERROR_WINDOW_NANOS: u128 = 5_000_000_000;

/// Whether the error window closes `elapsed` nanoseconds after it opened: once more than
/// five seconds have passed.
pub fn error_window_expired(elapsed: u128) -> (close: bool)
    ensures
        close == (elapsed > ERROR_WINDOW_NANOS),
{
    elapsed > ERROR_WINDOW_NANOS
}

/// The rows of a frame of `len` bytes that is `frame_width` pixels wide, as the drawing
/// reckons them in `u32`.
pub open spec fn window_rows(len: int, frame_width: u32) -> int {
    (len / 4) / (frame_width as int)
}

/// Which cell `(r, c)` of the `w`-wide rectangle at `(x, y)` is drawn: the one inside the
/// frame's columns and rows.
pub open spec fn window_cell(x: int, y: int, len: int, frame_width: u32) -> spec_fn(int, int) -> bool {
    |r: int, c: int| x + c < frame_width && y + r < window_rows(len, frame_width)
}

/// The pixel index of cell `(r, c)` of the rectangle at `(x, y)`.
pub open spec fn window_at(x: int, y: int, frame_width: u32) -> spec_fn(int, int) -> int {
    |r: int, c: int| (y + r) * frame_width + x + c
}

/// The pixels of the `width`-by-`height` rectangle at `(x, y)` inside the frame.
pub open spec fn window_rect(x: int, y: int, width: int, height: int, len: int, frame_width: u32) -> Set<int> {
    scanned(width, window_cell(x, y, len, frame_width), window_at(x, y, frame_width), height, 0)
}

/// The frame is small enough for `u32` offsets and has a width to divide by.
pub open spec fn window_fits(len: int, frame_width: u32) -> bool {
    frame_width > 0 && len <= u32::MAX
}

/// Writes `color` to pixel `p` when its bytes lie in the frame.
fn put_if_inside(frame: &mut [u8], p: usize, color: [u8; 4])
    requires
        4 * p <= u32::MAX,
    ensures
        final(frame)@ == painted(old(frame)@, set![p as int], color@),
{
    let idx = 4 * p;
    proof {
        lemma_painted_empty(frame@, color@);
        lemma_painted_insert(frame@, Set::empty(), p as int, color@);
        assert(Set::<int>::empty().insert(p as int) =~= set![p as int]);
    }
    if idx + 3 < frame.len() {
        write_pixel(frame, idx, color);
    }
}

/// Fills the `width`-by-`height` rectangle at `(x, y)` with `color`, skipping pixels
/// outside the frame's columns and rows.
pub fn draw_rectangle(frame: &mut [u8], x: u32, y: u32, width: u32, height: u32, color: [u8; 4], frame_width: u32)
    requires
        window_fits(old(frame)@.len() as int, frame_width),
        width > 0 && height > 0 ==> x + width - 1 <= u32::MAX && y + height - 1 <= u32::MAX,
    ensures
        final(frame)@ == painted(
            old(frame)@,
            window_rect(x as int, y as int, width as int, height as int, old(frame)@.len() as int, frame_width),
            color@,
        ),
{
    let len = frame.len();
    let ghost f0 = frame@;
    let ghost keep = window_cell(x as int, y as int, len as int, frame_width);
    let ghost at = window_at(x as int, y as int, frame_width);
    proof {
        lemma_scanned_start(width as int, keep, at);
        lemma_painted_empty(f0, color@);
    }
    let mut dy: u32 = 0;
    while dy < height
        invariant
            dy <= height,
            len == f0.len(),
            frame@.len() == len,
            window_fits(len as int, frame_width),
            width > 0 && height > 0 ==> x + width - 1 <= u32::MAX && y + height - 1 <= u32::MAX,
            keep == window_cell(x as int, y as int, len as int, frame_width),
            at == window_at(x as int, y as int, frame_width),
            frame@ == painted(f0, scanned(width as int, keep, at, dy as int, 0), color@),
        decreases height - dy,
    {
        let mut dx: u32 = 0;
        while dx < width
            invariant
                dy < height,
                dx <= width,
                len == f0.len(),
                frame@.len() == len,
                window_fits(len as int, frame_width),
                width > 0 && height > 0 ==> x + width - 1 <= u32::MAX && y + height - 1 <= u32::MAX,
                keep == window_cell(x as int, y as int, len as int, frame_width),
                at == window_at(x as int, y as int, frame_width),
                frame@ == painted(f0, scanned(width as int, keep, at, dy as int, dx as int), color@),
            decreases width - dx,
        {
            let px = x + dx;
            let py = y + dy;
            let ghost prev = scanned(width as int, keep, at, dy as int, dx as int);
            proof {
                lemma_scanned_next(width as int, keep, at, dy as int, dx as int);
            }
            if px < frame_width && py < len as u32 / 4 / frame_width {
                proof {
                    let fw = frame_width as int;
                    let rows = window_rows(len as int, frame_width);
                    assert(py * fw + px < rows * fw) by (nonlinear_arith)
                        requires
                            py < rows,
                            px < fw,
                    ;
                    assert(rows * fw <= len as int / 4) by (nonlinear_arith)
                        requires
                            rows == (len as int / 4) / fw,
                            fw > 0,
                    ;
                }
                let index = ((py * frame_width + px) * 4) as usize;
                put_if_inside(frame, index / 4, color);
                proof {
                    lemma_painted_twice(f0, prev, set![at(dy as int, dx as int)], color@);
                    assert(prev.union(set![at(dy as int, dx as int)]) =~= prev.insert(at(dy as int, dx as int)));
                }
            }
            dx = dx + 1;
        }
        proof {
            lemma_scanned_row(width as int, keep, at, dy as int);
        }
        dy = dy + 1;
    }
}


/// A column `x + k` of row `row` that lies inside the frame's columns.
pub open spec fn row_keep(x: int, frame_width: u32) -> spec_fn(int) -> bool {
    |k: int| x + k < frame_width
}

/// The pixel index of column `x + k` of row `row`.
pub open spec fn row_at(x: int, row: int, frame_width: u32) -> spec_fn(int) -> int {
    |k: int| row * frame_width + x + k
}

/// A row `y + k` that lies inside the frame's rows.
pub open spec fn column_keep(y: int, len: int, frame_width: u32) -> spec_fn(int) -> bool {
    |k: int| y + k < window_rows(len, frame_width)
}

/// The pixel index of row `y + k` of column `col`.
pub open spec fn column_at(y: int, col: int, frame_width: u32) -> spec_fn(int) -> int {
    |k: int| (y + k) * frame_width + col
}

/// The one-pixel outline of the `width`-by-`height` rectangle at `(x, y)`: the top and
/// bottom rows where they lie inside the frame's columns, and the left and right columns
/// where they lie inside the frame's rows.
pub open spec fn outline_pixels(x: int, y: int, width: int, height: int, len: int, frame_width: u32) -> Set<int> {
    gathered(width, row_keep(x, frame_width), row_at(x, y, frame_width))
        .union(gathered(width, row_keep(x, frame_width), row_at(x, y + height - 1, frame_width)))
        .union(gathered(height, column_keep(y, len, frame_width), column_at(y, x, frame_width)))
        .union(gathered(height, column_keep(y, len, frame_width), column_at(y, x + width - 1, frame_width)))
}

/// The offsets the outline computes stay within `u32`.
pub open spec fn outline_fits(x: int, y: int, width: int, height: int, frame_width: u32) -> bool {
    &&& 4 * ((y + height) * frame_width + x + width) <= u32::MAX
    &&& width > 0 ==> y + height >= 1
    &&& height > 0 ==> x + width >= 1
}

/// Draws the one-pixel outline of the `width`-by-`height` rectangle at `(x, y)`.
pub fn draw_rectangle_outline(frame: &mut [u8], x: u32, y: u32, width: u32, height: u32, color: [u8; 4], frame_width: u32)
    requires
        window_fits(old(frame)@.len() as int, frame_width),
        outline_fits(x as int, y as int, width as int, height as int, frame_width),
    ensures
        final(frame)@ == painted(
            old(frame)@,
            outline_pixels(x as int, y as int, width as int, height as int, old(frame)@.len() as int, frame_width),
            color@,
        ),
{
    let len = frame.len();
    let ghost f0 = frame@;
    let ghost fw = frame_width as int;
    let ghost rk = row_keep(x as int, frame_width);
    let ghost top_at = row_at(x as int, y as int, frame_width);
    let ghost bottom_at = row_at(x as int, y + height - 1, frame_width);
    let ghost ck = column_keep(y as int, len as int, frame_width);
    let ghost left_at = column_at(y as int, x as int, frame_width);
    let ghost right_at = column_at(y as int, x + width - 1, frame_width);
    proof {
        assert(y + height <= (y + height) * fw) by (nonlinear_arith)
            requires
                fw >= 1,
                y + height >= 0,
        ;
        lemma_gathered_start(rk, top_at);
        lemma_gathered_start(rk, bottom_at);
        lemma_painted_empty(f0, color@);
        assert(Set::<int>::empty().union(Set::<int>::empty()) =~= Set::<int>::empty());
    }
    let mut dx: u32 = 0;
    while dx < width
        invariant
            dx <= width,
            len == f0.len(),
            frame@.len() == len,
            window_fits(len as int, frame_width),
            outline_fits(x as int, y as int, width as int, height as int, frame_width),
            y + height <= u32::MAX,
            fw == frame_width,
            rk == row_keep(x as int, frame_width),
            top_at == row_at(x as int, y as int, frame_width),
            bottom_at == row_at(x as int, y + height - 1, frame_width),
            frame@ == painted(f0, gathered(dx as int, rk, top_at).union(gathered(dx as int, rk, bottom_at)), color@),
        decreases width - dx,
    {
        let px = x + dx;
        let ghost tops = gathered(dx as int, rk, top_at);
        let ghost bottoms = gathered(dx as int, rk, bottom_at);
        proof {
            lemma_gathered_next(dx as int, rk, top_at);
            lemma_gathered_next(dx as int, rk, bottom_at);
        }
        if px < frame_width {
            proof {
                assert(y * fw + px <= (y + height) * fw + x + width) by (nonlinear_arith)
                    requires
                        px < x + width,
                        fw >= 0,
                        height >= 0,
                ;
                assert((y + height - 1) * fw + px <= (y + height) * fw + x + width) by (nonlinear_arith)
                    requires
                        px < x + width,
                        fw >= 0,
                ;
            }
            let index_top = ((y * frame_width + px) * 4) as usize;
            put_if_inside(frame, index_top / 4, color);
            let py_bottom = y + height - 1;
            let index_bottom = ((py_bottom * frame_width + px) * 4) as usize;
            put_if_inside(frame, index_bottom / 4, color);
            proof {
                lemma_painted_twice(f0, tops.union(bottoms), set![top_at(dx as int)], color@);
                lemma_painted_twice(f0, tops.union(bottoms).union(set![top_at(dx as int)]), set![bottom_at(dx as int)], color@);
                assert(tops.union(bottoms).union(set![top_at(dx as int)]).union(set![bottom_at(dx as int)]) =~= tops.insert(
                    top_at(dx as int),
                ).union(bottoms.insert(bottom_at(dx as int))));
            }
        } else {
            proof {
                assert(tops.union(bottoms) =~= gathered(dx + 1, rk, top_at).union(gathered(dx + 1, rk, bottom_at)));
            }
        }
        dx = dx + 1;
    }
    let ghost rows_part = gathered(width as int, rk, top_at).union(gathered(width as int, rk, bottom_at));
    proof {
        lemma_gathered_start(ck, left_at);
        lemma_gathered_start(ck, right_at);
        assert(rows_part.union(Set::<int>::empty()).union(Set::<int>::empty()) =~= rows_part);
    }
    let mut dy: u32 = 0;
    while dy < height
        invariant
            dy <= height,
            len == f0.len(),
            frame@.len() == len,
            window_fits(len as int, frame_width),
            outline_fits(x as int, y as int, width as int, height as int, frame_width),
            y + height <= u32::MAX,
            fw == frame_width,
            ck == column_keep(y as int, len as int, frame_width),
            left_at == column_at(y as int, x as int, frame_width),
            right_at == column_at(y as int, x + width - 1, frame_width),
            frame@ == painted(f0, rows_part.union(gathered(dy as int, ck, left_at)).union(gathered(dy as int, ck, right_at)), color@),
        decreases height - dy,
    {
        let py = y + dy;
        let ghost lefts = gathered(dy as int, ck, left_at);
        let ghost rights = gathered(dy as int, ck, right_at);
        proof {
            lemma_gathered_next(dy as int, ck, left_at);
            lemma_gathered_next(dy as int, ck, right_at);
        }
        if py < len as u32 / 4 / frame_width {
            proof {
                assert(py * fw + x + width <= (y + height) * fw + x + width) by (nonlinear_arith)
                    requires
                        py < y + height,
                        fw >= 0,
                ;
            }
            let index_left = ((py * frame_width + x) * 4) as usize;
            put_if_inside(frame, index_left / 4, color);
            let px_right = x + width - 1;
            let index_right = ((py * frame_width + px_right) * 4) as usize;
            put_if_inside(frame, index_right / 4, color);
            proof {
                let base = rows_part.union(lefts).union(rights);
                lemma_painted_twice(f0, base, set![left_at(dy as int)], color@);
                lemma_painted_twice(f0, base.union(set![left_at(dy as int)]), set![right_at(dy as int)], color@);
                assert(base.union(set![left_at(dy as int)]).union(set![right_at(dy as int)]) =~= rows_part.union(
                    lefts.insert(left_at(dy as int)),
                ).union(rights.insert(right_at(dy as int))));
            }
        } else {
            proof {
                assert(rows_part.union(lefts).union(rights) =~= rows_part.union(gathered(dy + 1, ck, left_at)).union(
                    gathered(dy + 1, ck, right_at),
                ));
            }
        }
        dy = dy + 1;
    }
}


/// The progress window's glyph for `ch`: a blank eight-by-twelve cell for the space and a
/// solid one for every other character.
pub open spec fn block_pattern(ch: char) -> Seq<u8> {
    Seq::new(96, |i: int| if ch == ' ' { 0u8 } else { 1u8 })
}

/// The progress window's glyph for `ch`, one entry per cell in row-major order.
pub fn get_char_pattern(ch: char) -> (pattern: Vec<u8>)
    ensures
        pattern@ == block_pattern(ch),
{
    let fill: u8 = if ch == ' ' {
        0
    } else {
        1
    };
    let mut pattern: Vec<u8> = Vec::new();
    let mut i: usize = 0;
    while i < 96
        invariant
            i <= 96,
            pattern@ == Seq::new(i as nat, |k: int| fill),
            fill == (if ch == ' ' { 0u8 } else { 1u8 }),
        decreases 96 - i,
    {
        pattern.push(fill);
        i = i + 1;
        assert(pattern@ =~= Seq::new(i as nat, |k: int| fill));
    }
    assert(pattern@ =~= block_pattern(ch));
    pattern
}

/// Cell `i` of a glyph laid out `cw` cells wide at `(x, y)` is lit and lies inside the
/// frame.
pub open spec fn block_keep(pattern: Seq<u8>, x: int, y: int, cw: int, len: int, frame_width: u32) -> spec_fn(int) -> bool {
    |i: int| pattern[i] > 0 && x + i % cw < frame_width && y + i / cw < window_rows(len, frame_width)
}

/// The pixel index of cell `i` of a glyph laid out `cw` cells wide at `(x, y)`.
pub open spec fn block_at(x: int, y: int, cw: int, frame_width: u32) -> spec_fn(int) -> int {
    |i: int| (y + i / cw) * frame_width + x + i % cw
}

/// The pixels of the progress window's glyph for `ch` at `(x, y)`.
pub open spec fn block_char_pixels(ch: char, x: int, y: int, cw: int, len: int, frame_width: u32) -> Set<int> {
    gathered(96, block_keep(block_pattern(ch), x, y, cw, len, frame_width), block_at(x, y, cw, frame_width))
}

/// Draws the progress window's glyph for `ch` at `(x, y)`, `char_width` cells to a row.
pub fn draw_char(
    frame: &mut [u8],
    ch: char,
    x: u32,
    y: u32,
    color: [u8; 4],
    frame_width: u32,
    char_width: u32,
    char_height: u32,
)
    requires
        window_fits(old(frame)@.len() as int, frame_width),
        char_width > 0,
        x + char_width - 1 <= u32::MAX,
        y + 95u32 / char_width <= u32::MAX,
    ensures
        final(frame)@ == painted(
            old(frame)@,
            block_char_pixels(ch, x as int, y as int, char_width as int, old(frame)@.len() as int, frame_width),
            color@,
        ),
{
    let pattern = get_char_pattern(ch);
    let len = frame.len();
    let ghost f0 = frame@;
    let ghost keep = block_keep(pattern@, x as int, y as int, char_width as int, len as int, frame_width);
    let ghost at = block_at(x as int, y as int, char_width as int, frame_width);
    proof {
        lemma_gathered_start(keep, at);
        lemma_painted_empty(f0, color@);
    }
    let mut i: usize = 0;
    while i < 96
        invariant
            pattern@ == block_pattern(ch),
            i <= 96,
            len == f0.len(),
            frame@.len() == len,
            window_fits(len as int, frame_width),
            char_width > 0,
            x + char_width - 1 <= u32::MAX,
            y + 95u32 / char_width <= u32::MAX,
            keep == block_keep(pattern@, x as int, y as int, char_width as int, len as int, frame_width),
            at == block_at(x as int, y as int, char_width as int, frame_width),
            frame@ == painted(f0, gathered(i as int, keep, at), color@),
        decreases 96 - i,
    {
        let ghost prev = gathered(i as int, keep, at);
        proof {
            lemma_gathered_next(i as int, keep, at);
        }
        if pattern[i] > 0 {
            proof {
                assert((i as u32) / char_width <= 95u32 / char_width) by (nonlinear_arith)
                    requires
                        i < 96,
                        char_width > 0,
                ;
            }
            let px = x + (i as u32 % char_width);
            let py = y + (i as u32 / char_width);
            if px < frame_width && py < len as u32 / 4 / frame_width {
                proof {
                    let fw = frame_width as int;
                    let rows = window_rows(len as int, frame_width);
                    assert(py * fw + px < rows * fw) by (nonlinear_arith)
                        requires
                            py < rows,
                            px < fw,
                    ;
                    assert(rows * fw <= len as int / 4) by (nonlinear_arith)
                        requires
                            rows == (len as int / 4) / fw,
                            fw > 0,
                    ;
                }
                let index = ((py * frame_width + px) * 4) as usize;
                put_if_inside(frame, index / 4, color);
                proof {
                    lemma_painted_twice(f0, prev, set![at(i as int)], color@);
                    assert(prev.union(set![at(i as int)]) =~= prev.insert(at(i as int)));
                }
            }
        }
        i = i + 1;
    }
}

/// The pixels of the first `n` characters of `text` in the progress window's font,
/// eight pixels apart, starting at `(x, y)`.
pub open spec fn block_text_pixels(text: Seq<char>, x: int, y: int, n: nat, len: int, frame_width: u32) -> Set<int>
    decreases n,
{
    if n == 0 {
        Set::empty()
    } else {
        block_text_pixels(text, x, y, (n - 1) as nat, len, frame_width).union(
            block_char_pixels(text[n - 1], x + 8 * (n - 1), y, 8, len, frame_width),
        )
    }
}

/// Draws the characters of `text` in the progress window's font from `(x, y)`, eight
/// pixels per character.
pub fn draw_char_run(frame: &mut [u8], text: &[char], x: u32, y: u32, color: [u8; 4], frame_width: u32)
    requires
        window_fits(old(frame)@.len() as int, frame_width),
        x + 8 * text@.len() <= u32::MAX + 1,
        y + 11 <= u32::MAX,
    ensures
        final(frame)@ == painted(
            old(frame)@,
            block_text_pixels(text@, x as int, y as int, text@.len(), old(frame)@.len() as int, frame_width),
            color@,
        ),
{
    let ghost f0 = frame@;
    let ghost len = f0.len() as int;
    proof {
        lemma_painted_empty(f0, color@);
    }
    let n = text.len();
    let mut i: usize = 0;
    while i < n
        invariant
            n == text@.len(),
            i <= n,
            len == f0.len(),
            frame@.len() == len,
            window_fits(len, frame_width),
            x + 8 * n <= u32::MAX + 1,
            y + 11 <= u32::MAX,
            frame@ == painted(f0, block_text_pixels(text@, x as int, y as int, i as nat, len, frame_width), color@),
        decreases n - i,
    {
        let ghost before = block_text_pixels(text@, x as int, y as int, i as nat, len, frame_width);
        let ch = text[i];
        let char_x = x + (i as u32 * 8);
        draw_char(frame, ch, char_x, y, color, frame_width, 8, 12);
        proof {
            lemma_painted_twice(f0, before, block_char_pixels(ch, x + 8 * i, y as int, 8, len, frame_width), color@);
        }
        i = i + 1;
    }
}

/// Draws `text` in the progress window's font from `(x, y)`, eight pixels per character.
pub fn draw_simple_text(frame: &mut [u8], text: &str, x: u32, y: u32, color: [u8; 4], frame_width: u32)
    requires
        window_fits(old(frame)@.len() as int, frame_width),
        x + 8 * text@.len() <= u32::MAX + 1,
        y + 11 <= u32::MAX,
    ensures
        final(frame)@ == painted(
            old(frame)@,
            block_text_pixels(text@, x as int, y as int, text@.len(), old(frame)@.len() as int, frame_width),
            color@,
        ),
{
    let chars = str_chars(text);
    draw_char_run(frame, chars.as_slice(), x, y, color, frame_width);
}

/// The colour of the filled part of the progress bar for each status.
pub open spec fn status_color(status: DownloadStatus) -> Seq<u8> {
    match status {
        DownloadStatus::Starting => seq![100u8, 100u8, 200u8, 255u8],
        DownloadStatus::Downloading => seq![100u8, 200u8, 100u8, 255u8],
        DownloadStatus::Completed => seq![100u8, 255u8, 100u8, 255u8],
        DownloadStatus::Error => seq![255u8, 100u8, 100u8, 255u8],
    }
}

/// The frame after the progress bar has been drawn: a dark track fifty pixels in from the
/// left, twenty pixels high and centred vertically, the filled part of `filled_width`
/// pixels in the status colour when the size is known, and a grey outline.
pub open spec fn progress_bar_frame(f: Seq<u8>, width: u32, height: u32, total: u64, status: DownloadStatus, filled_width: u32) -> Seq<u8> {
    let len = f.len() as int;
    let bar_y = height / 2 - 10;
    let bar_width = width - 100;
    let f1 = painted(f, window_rect(50, bar_y, bar_width, 20, len, width), seq![60u8, 60u8, 70u8, 255u8]);
    let f2 = if total > 0 && filled_width > 0 {
        painted(f1, window_rect(50, bar_y, filled_width as int, 20, len, width), status_color(status))
    } else {
        f1
    };
    painted(f2, outline_pixels(50, bar_y, bar_width, 20, len, width), seq![150u8, 150u8, 150u8, 255u8])
}

/// The sizes for which the progress window's drawing stays within `u32`.
pub open spec fn progress_window_fits(len: int, width: u32, height: u32) -> bool {
    &&& window_fits(len, width)
    &&& width >= 100
    &&& height >= 80
    &&& 4 * ((height / 2 + 10) * width + width - 50) <= u32::MAX
}

/// Draws the progress bar; `filled_width` is the width of its filled part.
pub fn draw_progress_bar(frame: &mut [u8], width: u32, height: u32, progress: &DownloadProgress, filled_width: u32)
    requires
        progress_window_fits(old(frame)@.len() as int, width, height),
        progress.total > 0 ==> filled_width <= u32::MAX - 49,
    ensures
        final(frame)@ == progress_bar_frame(old(frame)@, width, height, progress.total, progress.status, filled_width),
{
    let bar_x: u32 = 50;
    let bar_y = height / 2 - 10;
    let bar_width = width - 100;
    let bar_height: u32 = 20;
    let track: [u8; 4] = [60, 60, 70, 255];
    assert(track@ =~= seq![60u8, 60u8, 70u8, 255u8]);
    draw_rectangle(frame, bar_x, bar_y, bar_width, bar_height, track, width);
    if progress.total > 0 {
        let color: [u8; 4] = match progress.status {
            DownloadStatus::Starting => [100, 100, 200, 255],
            DownloadStatus::Downloading => [100, 200, 100, 255],
            DownloadStatus::Completed => [100, 255, 100, 255],
            DownloadStatus::Error => [255, 100, 100, 255],
        };
        assert(color@ =~= status_color(progress.status));
        if filled_width > 0 {
            draw_rectangle(frame, bar_x, bar_y, filled_width, bar_height, color, width);
        }
    }
    let edge: [u8; 4] = [150, 150, 150, 255];
    assert(edge@ =~= seq![150u8, 150u8, 150u8, 255u8]);
    draw_rectangle_outline(frame, bar_x, bar_y, bar_width, bar_height, edge, width);
}

/// The frame after the progress window's text has been drawn: the status message above
/// the bar and, when the size is known, `progress_text` below it.
pub open spec fn status_text_frame(f: Seq<u8>, width: u32, height: u32, total: u64, message: Seq<char>, progress_text: Seq<char>) -> Seq<u8> {
    let len = f.len() as int;
    let f1 = painted(f, block_text_pixels(message, 50, height / 2 - 40, message.len(), len, width), seq![200u8, 200u8, 200u8, 255u8]);
    if total > 0 {
        painted(f1, block_text_pixels(progress_text, 50, height / 2 + 35, progress_text.len(), len, width), seq![180u8, 180u8, 180u8, 255u8])
    } else {
        f1
    }
}

/// Draws the status message and, when the size is known, the progress line.
pub fn draw_text(frame: &mut [u8], width: u32, height: u32, progress: &DownloadProgress, progress_text: &str)
    requires
        progress_window_fits(old(frame)@.len() as int, width, height),
        50 + 8 * progress.message@.len() <= u32::MAX + 1,
        50 + 8 * progress_text@.len() <= u32::MAX + 1,
    ensures
        final(frame)@ == status_text_frame(old(frame)@, width, height, progress.total, progress.message@, progress_text@),
{
    let message_y = height / 2 - 40;
    let grey: [u8; 4] = [200, 200, 200, 255];
    assert(grey@ =~= seq![200u8, 200u8, 200u8, 255u8]);
    draw_simple_text(frame, progress.message.as_str(), 50, message_y, grey, width);
    if progress.total > 0 {
        let progress_y = height / 2 + 35;
        let dim: [u8; 4] = [180, 180, 180, 255];
        assert(dim@ =~= seq![180u8, 180u8, 180u8, 255u8]);
        draw_simple_text(frame, progress_text, 50, progress_y, dim, width);
    }
}

/// The progress window: a dark blue-grey background, the bar, and the text.
pub open spec fn progress_window_frame(
    f: Seq<u8>,
    width: u32,
    height: u32,
    total: u64,
    status: DownloadStatus,
    message: Seq<char>,
    filled_width: u32,
    progress_text: Seq<char>,
) -> Seq<u8> {
    let f1 = filled(f, seq![20u8, 20u8, 30u8, 255u8]);
    let f2 = progress_bar_frame(f1, width, height, total, status, filled_width);
    status_text_frame(f2, width, height, total, message, progress_text)
}

/// Draws the whole progress window.
pub fn draw_progress_window(frame: &mut [u8], width: u32, height: u32, progress: &DownloadProgress, filled_width: u32, progress_text: &str)
    requires
        progress_window_fits(old(frame)@.len() as int, width, height),
        progress.total > 0 ==> filled_width <= u32::MAX - 49,
        50 + 8 * progress.message@.len() <= u32::MAX + 1,
        50 + 8 * progress_text@.len() <= u32::MAX + 1,
    ensures
        final(frame)@ == progress_window_frame(
            old(frame)@,
            width,
            height,
            progress.total,
            progress.status,
            progress.message@,
            filled_width,
            progress_text@,
        ),
{
    let background: [u8; 4] = [20, 20, 30, 255];
    assert(background@ =~= seq![20u8, 20u8, 30u8, 255u8]);
    fill_pixels(frame, background);
    draw_progress_bar(frame, width, height, progress, filled_width);
    draw_text(frame, width, height, progress, progress_text);
}


/// The pixels of the first `n` lines of the error message, twenty pixels apart from row
/// seventy, thirty pixels in from the left.
pub open spec fn message_pixels(lines: Seq<Seq<char>>, n: nat, len: int, frame_width: u32) -> Set<int>
    decreases n,
{
    if n == 0 {
        Set::empty()
    } else {
        message_pixels(lines, (n - 1) as nat, len, frame_width).union(
            block_text_pixels(lines[n - 1], 30, 70 + 20 * (n - 1), lines[n - 1].len(), len, frame_width),
        )
    }
}

/// The error window for `message`: a dark red background, a double red border, the
/// title, the message's words wrapped into lines, and two lines saying how the window
/// closes.
pub open spec fn error_window_frame(f: Seq<u8>, width: u32, height: u32, message: Seq<char>) -> Seq<u8> {
    let len = f.len() as int;
    let red = seq![200u8, 100u8, 100u8, 255u8];
    let f1 = filled(f, seq![40u8, 20u8, 20u8, 255u8]);
    let f2 = painted(f1, outline_pixels(10, 10, width - 20, height - 20, len, width), red);
    let f3 = painted(f2, outline_pixels(12, 12, width - 24, height - 24, len, width), red);
    let f4 = painted(f3, block_text_pixels("DOWNLOAD ERROR"@, 50, 30, "DOWNLOAD ERROR"@.len(), len, width), seq![255u8, 150u8, 150u8, 255u8]);
    let lines = wrapped_lines(words_of(message));
    let f5 = painted(f4, message_pixels(lines, lines.len(), len, width), seq![200u8, 200u8, 200u8, 255u8]);
    let y = 70 + 20 * lines.len() as int;
    let hint = seq![180u8, 180u8, 180u8, 255u8];
    let first = "This window will close automatically in 5 seconds"@;
    let second = "or click the X to close manually"@;
    let f6 = painted(f5, block_text_pixels(first, 30, y + 20, first.len(), len, width), hint);
    painted(f6, block_text_pixels(second, 30, y + 40, second.len(), len, width), hint)
}

/// The sizes for which the error window's drawing stays within `u32`.
pub open spec fn error_window_fits(len: int, width: u32, height: u32, message_len: int) -> bool {
    &&& window_fits(len, width)
    &&& width >= 24
    &&& height >= 24
    &&& 4 * ((height - 10) * width + width - 10) <= u32::MAX
    &&& 30 + 8 * (message_len + MAX_LINE_BYTES) <= u32::MAX
    &&& 20 * message_len + 200 <= u32::MAX
}

/// Draws the error window for `error_message`.
pub fn draw_error_window(frame: &mut [u8], width: u32, height: u32, error_message: &str)
    requires
        error_window_fits(old(frame)@.len() as int, width, height, error_message@.len() as int),
    ensures
        final(frame)@ == error_window_frame(old(frame)@, width, height, error_message@),
{
    let ghost len = frame@.len() as int;
    let background: [u8; 4] = [40, 20, 20, 255];
    assert(background@ =~= seq![40u8, 20u8, 20u8, 255u8]);
    fill_pixels(frame, background);
    let red: [u8; 4] = [200, 100, 100, 255];
    assert(red@ =~= seq![200u8, 100u8, 100u8, 255u8]);
    draw_rectangle_outline(frame, 10, 10, width - 20, height - 20, red, width);
    assert((height - 12) * width <= (height - 10) * width) by (nonlinear_arith)
        requires
            height >= 24,
    ;
    draw_rectangle_outline(frame, 12, 12, width - 24, height - 24, red, width);
    let title_color: [u8; 4] = [255, 150, 150, 255];
    assert(title_color@ =~= seq![255u8, 150u8, 150u8, 255u8]);
    proof {
        reveal_strlit("DOWNLOAD ERROR");
    }
    draw_simple_text(frame, "DOWNLOAD ERROR", 50, 30, title_color, width);
    let words = split_whitespace(error_message);
    let ghost ws = words_of(error_message@);
    proof {
        assert(words@.map_values(|w: Vec<char>| w@) =~= ws);
        lemma_words_bounds(error_message@);
        lemma_wrapped_text_bounds(error_message@);
    }
    let lines = wrap_words(&words);
    let ghost ls = wrapped_lines(ws);
    let ghost f4 = frame@;
    let body: [u8; 4] = [200, 200, 200, 255];
    assert(body@ =~= seq![200u8, 200u8, 200u8, 255u8]);
    proof {
        lemma_painted_empty(f4, body@);
    }
    let mut y_offset: u32 = 70;
    let mut j: usize = 0;
    while j < lines.len()
        invariant
            lines@.len() == ls.len(),
            forall|i: int| 0 <= i < lines@.len() ==> #[trigger] lines@[i]@ == ls[i],
            ls.len() <= error_message@.len(),
            forall|i: int| 0 <= i < ls.len() ==> (#[trigger] ls[i]).len() <= MAX_LINE_BYTES || ls[i].len() <= error_message@.len(),
            error_window_fits(len, width, height, error_message@.len() as int),
            j <= lines@.len(),
            y_offset == 70 + 20 * j,
            frame@.len() == len,
            f4.len() == len,
            frame@ == painted(f4, message_pixels(ls, j as nat, len, width), body@),
        decreases lines@.len() - j,
    {
        let ghost before = message_pixels(ls, j as nat, len, width);
        draw_char_run(frame, lines[j].as_slice(), 30, y_offset, body, width);
        proof {
            lemma_painted_twice(
                f4,
                before,
                block_text_pixels(ls[j as int], 30, 70 + 20 * j, ls[j as int].len(), len, width),
                body@,
            );
        }
        y_offset = y_offset + 20;
        j = j + 1;
    }
    let hint: [u8; 4] = [180, 180, 180, 255];
    assert(hint@ =~= seq![180u8, 180u8, 180u8, 255u8]);
    proof {
        reveal_strlit("This window will close automatically in 5 seconds");
        reveal_strlit("or click the X to close manually");
    }
    draw_simple_text(frame, "This window will close automatically in 5 seconds", 30, y_offset + 20, hint, width);
    draw_simple_text(frame, "or click the X to close manually", 30, y_offset + 40, hint, width);
}

} // verus!
