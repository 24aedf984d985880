use vstd::prelude::*;

verus! {

/// Line feed, which ends a line of the log.
pub const NEWLINE: u8 = 10;

/// Carriage return, dropped from the end of a line that a line feed ends.
pub const CR: u8 = 13;

/// Tab, which parts the timestamp of an entry from its duration.
pub const TAB: u8 = 9;

/// The duration text that marks an open entry: `00:00:00`.
pub open spec fn zero_sentinel() -> Seq<u8> {
    seq![48u8, 48u8, 58u8, 48u8, 48u8, 58u8, 48u8, 48u8]
}

/// The pieces of `s` between line feeds, in order; the last piece is what
/// follows the last line feed (empty when `s` ends with one).
pub open spec fn pieces(s: Seq<u8>) -> Seq<Seq<u8>>
    decreases s.len(),
{
    if s.len() == 0 {
        seq![Seq::empty()]
    } else {
        let p = pieces(s.drop_last());
        if s.last() == NEWLINE {
            p.push(Seq::empty())
        } else {
            p.update(p.len() - 1, p.last().push(s.last()))
        }
    }
}

/// A line that a line feed ended loses one trailing carriage return.
pub open spec fn strip_cr(line: Seq<u8>) -> Seq<u8> {
    if line.len() > 0 && line.last() == CR {
        line.drop_last()
    } else {
        line
    }
}

/// The lines of a text: the pieces that a line feed ends, without their
/// carriage return, then the unterminated rest when it is not empty.
pub open spec fn lines_of(s: Seq<u8>) -> Seq<Seq<u8>> {
    let p = pieces(s);
    let ended = p.drop_last().map_values(|l: Seq<u8>| strip_cr(l));
    if p.last().len() == 0 {
        ended
    } else {
        ended.push(p.last())
    }
}

/// `k` is the position of the first tab of `line`.
pub open spec fn is_first_tab(line: Seq<u8>, k: int) -> bool {
    &&& 0 <= k < line.len()
    &&& line[k] == TAB
    &&& forall|j: int| 0 <= j < k ==> line[j] != TAB
}

/// The timestamp text of `line` when it is an open entry: split at its first
/// tab, the part after the tab is exactly the zero sentinel.
pub open spec fn open_stamp(line: Seq<u8>) -> Option<Seq<u8>> {
    if exists|k: int| is_first_tab(line, k) {
        let k = choose|k: int| is_first_tab(line, k);
        if line.subrange(k + 1, line.len() as int) == zero_sentinel() {
            Some(line.subrange(0, k))
        } else {
            None
        }
    } else {
        None
    }
}

/// Looking from the last line backwards, the timestamp text of the first open
/// entry met; lines that are not open entries, malformed ones included, are
/// passed over.
pub open spec fn last_open(lines: Seq<Seq<u8>>) -> Option<Seq<u8>>
    decreases lines.len(),
{
    if lines.len() == 0 {
        None
    } else {
        match open_stamp(lines.last()) {
            Some(t) => Some(t),
            None => last_open(lines.drop_last()),
        }
    }
}

/// The timestamp text of the most recent open entry of a log.
pub open spec fn open_entry_of(log: Seq<u8>) -> Option<Seq<u8>> {
    last_open(lines_of(log))
}

/// The bytes that a range of `log` picks, when there is one.
pub open spec fn range_text(log: Seq<u8>, r: Option<(usize, usize)>) -> Option<Seq<u8>> {
    match r {
        Some((a, b)) => Some(log.subrange(a as int, b as int)),
        None => None,
    }
}

pub proof fn lemma_pieces_len(s: Seq<u8>)
    ensures
        pieces(s).len() >= 1,
    decreases s.len(),
{
    if s.len() > 0 {
        lemma_pieces_len(s.drop_last());
    }
}

proof fn lemma_first_tab_unique(line: Seq<u8>, k: int, m: int)
    requires
        is_first_tab(line, k),
        is_first_tab(line, m),
    ensures
        k == m,
{
    if k < m {
        assert(line[k] != TAB);
    } else if m < k {
        assert(line[m] != TAB);
    }
}

pub proof fn lemma_last_open_push(lines: Seq<Seq<u8>>, line: Seq<u8>)
    ensures
        last_open(lines.push(line)) == match open_stamp(line) {
            Some(t) => Some(t),
            None => last_open(lines),
        },
{
    assert(lines.push(line).drop_last() =~= lines);
}

/// The `i`th byte of the zero sentinel.
fn sentinel_byte(i: usize) -> (b: u8)
    requires
        i < 8,
    ensures
        b == zero_sentinel()[i as int],
{
    if i == 2 || i == 5 {
        58
    } else {
        48
    }
}

/// Where `log[start..end]` is an open entry, the range of its timestamp text.
fn open_stamp_at(log: &[u8], start: usize, end: usize) -> (r: Option<(usize, usize)>)
    requires
        start <= end <= log@.len(),
    ensures
        match r {
            Some((a, b)) => a == start && start <= b <= end,
            None => true,
        },
        range_text(log@, r) == open_stamp(log@.subrange(start as int, end as int)),
{
    let ghost line = log@.subrange(start as int, end as int);
    let mut k: usize = start;
    while k < end && log[k] != TAB
        invariant
            start <= k <= end <= log@.len(),
            line == log@.subrange(start as int, end as int),
            forall|j: int| 0 <= j < k - start ==> line[j] != TAB,
        decreases end - k,
    {
        k = k + 1;
    }
    if k == end {
        assert(!exists|m: int| is_first_tab(line, m));
        return None;
    }
    proof {
        assert(is_first_tab(line, k - start));
        let m = choose|m: int| is_first_tab(line, m);
        lemma_first_tab_unique(line, k - start, m);
    }
    let ghost tail = line.subrange(k - start + 1, line.len() as int);
    if end - k - 1 != 8 {
        assert(tail.len() != zero_sentinel().len());
        return None;
    }
    let mut j: usize = 0;
    while j < 8
        invariant
            j <= 8,
            k + 1 + 8 == end,
            end <= log@.len(),
            start <= k < end,
            line == log@.subrange(start as int, end as int),
            tail == line.subrange(k - start + 1, line.len() as int),
            tail =~= log@.subrange(k + 1, end as int),
            is_first_tab(line, k - start),
            (choose|m: int| is_first_tab(line, m)) == k - start,
            forall|i: int| 0 <= i < j ==> tail[i] == zero_sentinel()[i],
        decreases 8 - j,
    {
        if log[k + 1 + j] != sentinel_byte(j) {
            assert(tail[j as int] != zero_sentinel()[j as int]);
            return None;
        }
        j = j + 1;
    }
    assert(tail =~= zero_sentinel());
    assert(log@.subrange(start as int, k as int) =~= line.subrange(0, k - start));
    Some((start, k))
}

/// Finds the timestamp text of the most recent open entry of `log`: the last
/// line whose text after its first tab is exactly `00:00:00`. Lines without a
/// tab are passed over. The result is the range of that text in `log`.
pub fn find_open_entry(log: &[u8]) -> (r: Option<(usize, usize)>)
    ensures
        match r {
            Some((a, b)) => a <= b <= log@.len(),
            None => true,
        },
        range_text(log@, r) == open_entry_of(log@),
{
    let mut found: Option<(usize, usize)> = None;
    let mut line_start: usize = 0;
    let mut i: usize = 0;
    proof {
        assert(log@.subrange(0, 0) =~= Seq::<u8>::empty());
        assert(pieces(Seq::<u8>::empty()).drop_last() =~= Seq::<Seq<u8>>::empty());
    }
    while i < log.len()
        invariant
            line_start <= i <= log@.len(),
            pieces(log@.subrange(0, i as int)).len() >= 1,
            pieces(log@.subrange(0, i as int)).last() == log@.subrange(line_start as int, i as int),
            range_text(log@, found) == last_open(
                pieces(log@.subrange(0, i as int)).drop_last().map_values(|l: Seq<u8>| strip_cr(l)),
            ),
            match found {
                Some((a, b)) => a <= b <= log@.len(),
                None => true,
            },
        decreases log@.len() - i,
    {
        let ghost before = log@.subrange(0, i as int);
        let ghost after = log@.subrange(0, i + 1);
        let ghost p = pieces(before);
        proof {
            assert(after.drop_last() =~= before);
        }
        if log[i] == NEWLINE {
            let end: usize = if i > line_start && log[i - 1] == CR {
                i - 1
            } else {
                i
            };
            proof {
                let piece = log@.subrange(line_start as int, i as int);
                assert(strip_cr(piece) =~= log@.subrange(line_start as int, end as int));
                assert(pieces(after).drop_last() =~= p);
                assert(p.map_values(|l: Seq<u8>| strip_cr(l)) =~= p.drop_last().map_values(
                    |l: Seq<u8>| strip_cr(l),
                ).push(strip_cr(piece)));
                lemma_last_open_push(
                    p.drop_last().map_values(|l: Seq<u8>| strip_cr(l)),
                    strip_cr(piece),
                );
            }
            let here = open_stamp_at(log, line_start, end);
            if here.is_some() {
                found = here;
            }
            line_start = i + 1;
            proof {
                assert(log@.subrange(line_start as int, i + 1) =~= Seq::<u8>::empty());
            }
        } else {
            proof {
                assert(pieces(after).drop_last() =~= p.drop_last());
                assert(log@.subrange(line_start as int, i + 1) =~= p.last().push(log@[i as int]));
            }
        }
        i = i + 1;
    }
    proof {
        assert(log@.subrange(0, log@.len() as int) =~= log@);
    }
    let ghost p = pieces(log@);
    let ghost ended = p.drop_last().map_values(|l: Seq<u8>| strip_cr(l));
    if line_start < log.len() {
        let here = open_stamp_at(log, line_start, log.len());
        proof {
            lemma_last_open_push(ended, p.last());
        }
        if here.is_some() {
            found = here;
        }
    }
    found
}

} // verus!
