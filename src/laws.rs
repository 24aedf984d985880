use vstd::prelude::*;

use crate::entry::{
    entry_text, lemma_zero_duration_is_sentinel, rfc2822_text, timestamp_entry_spec, Instant,
    LogError,
};
use crate::scan::{
    lemma_last_open_push, lemma_pieces_len, lines_of, open_entry_of, open_stamp, pieces,
    strip_cr, zero_sentinel, is_first_tab, CR, NEWLINE, TAB,
};

verus! {

/// A log that is empty or whose last line is ended: the next append starts a
/// line of its own.
pub open spec fn is_line_ended(log: Seq<u8>) -> bool {
    log.len() == 0 || log.last() == NEWLINE
}

/// Text that can stand as one line: no line feed in it, and no carriage
/// return at its end.
pub open spec fn is_single_line(body: Seq<u8>) -> bool {
    &&& forall|i: int| 0 <= i < body.len() ==> body[i] != NEWLINE
    &&& (body.len() > 0 ==> body.last() != CR)
}

proof fn lemma_ended_last_piece_empty(log: Seq<u8>)
    requires
        is_line_ended(log),
    ensures
        pieces(log).last() == Seq::<u8>::empty(),
{
    if log.len() > 0 {
        lemma_pieces_len(log.drop_last());
    }
}

proof fn lemma_pieces_extend(log: Seq<u8>, body: Seq<u8>)
    requires
        forall|i: int| 0 <= i < body.len() ==> body[i] != NEWLINE,
    ensures
        pieces(log + body) == pieces(log).drop_last().push(pieces(log).last() + body),
    decreases body.len(),
{
    lemma_pieces_len(log);
    if body.len() == 0 {
        assert(log + body =~= log);
        assert(pieces(log).drop_last().push(pieces(log).last() + body) =~= pieces(log));
    } else {
        let shorter = body.drop_last();
        lemma_pieces_extend(log, shorter);
        assert((log + body).drop_last() =~= log + shorter);
        assert((log + body).last() == body.last());
        assert(body.last() != NEWLINE);
        assert((pieces(log).last() + shorter).push(body.last()) =~= pieces(log).last() + body);
        assert(pieces(log + body) =~= pieces(log).drop_last().push(
            pieces(log).last() + body,
        ));
    }
}

/// Appending one line to a line-ended log keeps every line that was there,
/// unchanged and in its place, and adds the new line after them.
pub proof fn lemma_append_keeps_lines(log: Seq<u8>, body: Seq<u8>)
    requires
        is_line_ended(log),
        is_single_line(body),
    ensures
        lines_of(log + body + seq![NEWLINE]) == lines_of(log).push(body),
        is_line_ended(log + body + seq![NEWLINE]),
{
    lemma_ended_last_piece_empty(log);
    lemma_pieces_len(log);
    lemma_pieces_extend(log, body);
    let all = log + body + seq![NEWLINE];
    assert(all.drop_last() =~= log + body);
    assert(pieces(log).last() + body =~= body);
    let p = pieces(all);
    assert(p =~= pieces(log).drop_last().push(body).push(Seq::empty()));
    assert(strip_cr(body) == body);
    assert(p.drop_last().map_values(|l: Seq<u8>| strip_cr(l)) =~= pieces(log).drop_last().map_values(
        |l: Seq<u8>| strip_cr(l),
    ).push(body));
}

/// A line without a tab, appended to a line-ended log, leaves the most
/// recent open entry as it was: the scan passes over it.
pub proof fn lemma_malformed_line_skipped(log: Seq<u8>, body: Seq<u8>)
    requires
        is_line_ended(log),
        is_single_line(body),
        forall|i: int| 0 <= i < body.len() ==> body[i] != TAB,
    ensures
        open_entry_of(log + body + seq![NEWLINE]) == open_entry_of(log),
{
    lemma_append_keeps_lines(log, body);
    lemma_last_open_push(lines_of(log), body);
    assert(!exists|k: int| is_first_tab(body, k));
}

/// The line of record-start, appended to a line-ended log, becomes the most
/// recent open entry, and its timestamp is the one that record-timestamp
/// will parse next; where the timestamp text holds no tab or line feed.
pub proof fn lemma_start_entry_is_open(log: Seq<u8>, stamp: Seq<u8>)
    requires
        is_line_ended(log),
        forall|i: int| 0 <= i < stamp.len() ==> stamp[i] != NEWLINE && stamp[i] != TAB,
    ensures
        open_entry_of(log + entry_text(stamp, 0)) == Some(stamp),
{
    lemma_zero_duration_is_sentinel();
    let body = stamp + seq![TAB] + zero_sentinel();
    assert(entry_text(stamp, 0) =~= body + seq![NEWLINE]);
    assert(log + entry_text(stamp, 0) =~= log + body + seq![NEWLINE]);
    lemma_append_keeps_lines(log, body);
    lemma_last_open_push(lines_of(log), body);
    let k = stamp.len() as int;
    assert(is_first_tab(body, k));
    let m = choose|m: int| is_first_tab(body, m);
    if m < k {
        assert(body[m] == stamp[m]);
    } else if m > k {
        assert(body[k] == TAB);
    }
    assert(body.subrange(k + 1, body.len() as int) =~= zero_sentinel());
    assert(body.subrange(0, k) =~= stamp);
}

/// On an empty log, record-timestamp finds no open entry and writes a line
/// whose duration is the zero sentinel.
pub proof fn lemma_empty_log_zero_duration(now: Instant)
    ensures
        open_entry_of(Seq::empty()) == None::<Seq<u8>>,
        timestamp_entry_spec(Seq::empty(), now) == match rfc2822_text(
            now.unix_seconds as int,
            now.offset_seconds as int,
        ) {
            Some(text) => Ok(text + seq![TAB] + zero_sentinel() + seq![NEWLINE]),
            None => Err(LogError::Format),
        },
{
    lemma_zero_duration_is_sentinel();
    let p = pieces(Seq::<u8>::empty());
    assert(p.drop_last().map_values(|l: Seq<u8>| strip_cr(l)) =~= Seq::<Seq<u8>>::empty());
    match rfc2822_text(now.unix_seconds as int, now.offset_seconds as int) {
        Some(text) => {
            assert(entry_text(text, 0) =~= text + seq![TAB] + zero_sentinel() + seq![NEWLINE]);
        },
        None => {},
    }
}

} // verus!
