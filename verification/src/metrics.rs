//! Reading a validator's metrics, which are served as lines of text.
use vstd::prelude::*;

verus! {

/// The family that counts transactions that entered processing.
pub const RECEIVED_FAMILY: &'static str = "mbv_transaction_processing_time_count";

/// The family that counts terminal failures.
pub const FAILED_FAMILY: &'static str = "engine_processor_failed_transactions";

/// A line without the carriage return that may stand before its line feed.
pub open spec fn without_return(line: Seq<u8>) -> Seq<u8> {
    if line.len() > 0 && line.last() == 13 {
        line.drop_last()
    } else {
        line
    }
}

/// The lines of a text. A line ends in a line feed, or in a carriage return
/// and a line feed; the last one may lack its end.
pub open spec fn lines(text: Seq<u8>) -> Seq<Seq<u8>>
    decreases text.len(),
    via lines_decreases
{
    match text.index_of_first(10u8) {
        Some(at) => seq![without_return(text.take(at))] + lines(text.skip(at + 1)),
        None => if text.len() == 0 {
            Seq::<Seq<u8>>::empty()
        } else {
            seq![text]
        },
    }
}

#[via_fn]
proof fn lines_decreases(text: Seq<u8>) {
    text.index_of_first_ensures(10u8);
}

/// Whether a line is a sample of the family: the family's name, and then a
/// brace or a space. A comment is none.
pub open spec fn is_sample(line: Seq<u8>, family: Seq<u8>) -> bool {
    &&& line.len() > 0 && line[0] != 35
    &&& family.len() < line.len()
    &&& line.take(family.len() as int) == family
    &&& line[family.len() as int] == 123 || line[family.len() as int] == 32
}

/// What stands behind the last space of a line: the whole line if it has no
/// space.
pub open spec fn last_field(line: Seq<u8>) -> Seq<u8> {
    match line.index_of_last(32u8) {
        Some(at) => line.skip(at + 1),
        None => line,
    }
}

/// The values of the family's samples among the lines, in order.
pub open spec fn sample_values(lines: Seq<Seq<u8>>, family: Seq<u8>) -> Seq<Seq<u8>>
    decreases lines.len(),
{
    if lines.len() == 0 {
        Seq::<Seq<u8>>::empty()
    } else {
        let before = sample_values(lines.drop_last(), family);
        if is_sample(lines.last(), family) {
            before.push(last_field(lines.last()))
        } else {
            before
        }
    }
}

/// The bytes of each value.
pub open spec fn values_view(values: Seq<Vec<u8>>) -> Seq<Seq<u8>> {
    values.map_values(|value: Vec<u8>| value@)
}

/// Where the line that starts at `start` ends: at its line feed, or at the
/// end of the text.
fn line_end(text: &[u8], start: usize) -> (end: usize)
    requires
        start <= text@.len(),
    ensures
        start <= end <= text@.len(),
        forall|k: int| start <= k < end ==> text@[k] != 10,
        end < text@.len() ==> text@[end as int] == 10,
{
    let mut end: usize = start;
    while end < text.len() && text[end] != 10
        invariant
            start <= end <= text@.len(),
            forall|k: int| start <= k < end ==> text@[k] != 10,
        decreases text@.len() - end,
    {
        end += 1;
    }
    end
}

/// Whether the line between `start` and `end` is a sample of the family.
fn sample_at(text: &[u8], start: usize, end: usize, family: &[u8]) -> (is: bool)
    requires
        start <= end <= text@.len(),
    ensures
        is == is_sample(text@.subrange(start as int, end as int), family@),
{
    let ghost line = text@.subrange(start as int, end as int);
    if end - start <= family.len() {
        return false;
    }
    if text[start] == 35 {
        return false;
    }
    let mut k: usize = 0;
    while k < family.len()
        invariant
            k <= family@.len() < end - start,
            start <= end <= text@.len(),
            line == text@.subrange(start as int, end as int),
            forall|j: int| 0 <= j < k ==> line[j] == family@[j],
        decreases family@.len() - k,
    {
        if text[start + k] != family[k] {
            assert(line[k as int] != family@[k as int]);
            assert(line.take(family@.len() as int)[k as int] == line[k as int]);
            return false;
        }
        k += 1;
    }
    assert(line.take(family@.len() as int) =~= family@);
    let next: u8 = text[start + k];
    next == 123 || next == 32
}

/// The last field of the line between `start` and `end`.
fn field_at(text: &[u8], start: usize, end: usize) -> (field: Vec<u8>)
    requires
        start <= end <= text@.len(),
    ensures
        field@ == last_field(text@.subrange(start as int, end as int)),
{
    let ghost line = text@.subrange(start as int, end as int);
    let mut from: usize = end;
    while from > start && text[from - 1] != 32
        invariant
            start <= from <= end <= text@.len(),
            line == text@.subrange(start as int, end as int),
            forall|j: int| from - start <= j < line.len() ==> line[j] != 32,
        decreases from,
    {
        from -= 1;
    }
    let mut field: Vec<u8> = Vec::new();
    let mut k: usize = from;
    while k < end
        invariant
            start <= from <= k <= end <= text@.len(),
            field@ == text@.subrange(from as int, k as int),
        decreases end - k,
    {
        field.push(text[k]);
        k += 1;
        assert(field@ =~= text@.subrange(from as int, k as int));
    }
    proof {
        line.index_of_last_ensures(32u8);
        if from > start {
            assert(line[from - start - 1] == 32);
        }
        assert(field@ =~= last_field(line));
    }
    field
}

/// The values of all the samples of a family, as they are written.
pub fn metric_family_values(text: &[u8], family: &[u8]) -> (values: Vec<Vec<u8>>)
    ensures
        values_view(values@) == sample_values(lines(text@), family@),
{
    let mut values: Vec<Vec<u8>> = Vec::new();
    let mut start: usize = 0;
    let ghost mut done: Seq<Seq<u8>> = Seq::empty();
    assert(text@.skip(0) =~= text@);
    assert(done + lines(text@) =~= lines(text@));
    while start < text.len()
        invariant
            start <= text@.len(),
            lines(text@) == done + lines(text@.skip(start as int)),
            values_view(values@) == sample_values(done, family@),
        decreases text@.len() - start,
    {
        let end: usize = line_end(text, start);
        let mut stop: usize = end;
        if end < text.len() && end > start && text[end - 1] == 13 {
            stop = end - 1;
        }
        let ghost rest = text@.skip(start as int);
        let ghost line = text@.subrange(start as int, stop as int);
        let ghost before = done;
        let next: usize = if end < text.len() {
            end + 1
        } else {
            end
        };
        proof {
            rest.index_of_first_ensures(10u8);
            if end < text@.len() {
                assert(rest[end - start] == 10);
                let at = rest.index_of_first(10u8)->0;
                assert(at == end - start);
                assert(without_return(rest.take(at)) =~= line);
                assert(rest.skip(at + 1) =~= text@.skip(next as int));
                assert(lines(rest) == seq![line] + lines(text@.skip(next as int)));
            } else {
                assert(!rest.contains(10u8));
                assert(line =~= rest);
                assert(text@.skip(next as int).len() == 0);
                text@.skip(next as int).index_of_first_ensures(10u8);
                assert(lines(text@.skip(next as int)) =~= Seq::empty());
                assert(lines(rest) =~= seq![line] + lines(text@.skip(next as int)));
            }
            assert(done + (seq![line] + lines(text@.skip(next as int))) =~= done.push(line)
                + lines(text@.skip(next as int)));
            done = done.push(line);
            assert(done.drop_last() =~= before);
        }
        if sample_at(text, start, stop, family) {
            let field = field_at(text, start, stop);
            values.push(field);
        }
        assert(values_view(values@) =~= sample_values(done, family@));
        start = next;
    }
    proof {
        text@.skip(start as int).index_of_first_ensures(10u8);
        assert(done + Seq::<Seq<u8>>::empty() =~= done);
    }
    values
}

/// The values of two lists of lines are those of the one and then those of the
/// other.
proof fn values_add_up(a: Seq<Seq<u8>>, b: Seq<Seq<u8>>, family: Seq<u8>)
    ensures
        sample_values(a + b, family) == sample_values(a, family) + sample_values(b, family),
    decreases b.len(),
{
    if b.len() == 0 {
        assert(a + b =~= a);
        assert(sample_values(a, family) + sample_values(b, family) =~= sample_values(a, family));
    } else {
        values_add_up(a, b.drop_last(), family);
        assert((a + b).drop_last() =~= a + b.drop_last());
        assert(sample_values(a + b, family) =~= sample_values(a, family) + sample_values(
            b,
            family,
        ));
    }
}

/// Whether a text ends in a sample of the family whose value ends in a
/// carriage return.
pub open spec fn ends_in_open_sample(text: Seq<u8>, family: Seq<u8>) -> bool {
    text.len() > 0 && text.last() == 13 && is_sample(lines(text).last(), family)
}

/// A line is a sample with a carriage return behind it or without.
proof fn returns_make_no_sample(line: Seq<u8>, family: Seq<u8>)
    ensures
        is_sample(without_return(line), family) == is_sample(line, family),
{
    let bare = without_return(line);
    if bare != line {
        assert(forall|k: int| 0 <= k < bare.len() ==> bare[k] == line[k]);
        if family.len() < bare.len() {
            assert(bare.take(family.len() as int) =~= line.take(family.len() as int));
        }
    }
}

/// Two texts joined by a line feed have the samples of the first and then
/// those of the second, unless the first ends in a sample and a carriage
/// return: joined, the carriage return belongs to the line end and no longer
/// to the value.
pub proof fn joined_texts_join_their_samples(a: Seq<u8>, b: Seq<u8>, family: Seq<u8>)
    requires
        !ends_in_open_sample(a, family),
    ensures
        sample_values(lines(a + seq![10u8] + b), family) == sample_values(lines(a), family)
            + sample_values(lines(b), family),
    decreases a.len(),
{
    let whole = a + seq![10u8] + b;
    a.index_of_first_ensures(10u8);
    whole.index_of_first_ensures(10u8);
    assert(whole[a.len() as int] == 10);
    let first = whole.index_of_first(10u8)->0;
    if a.contains(10u8) {
        let at = a.index_of_first(10u8)->0;
        let rest = a.skip(at + 1);
        assert(whole[at] == 10);
        assert(forall|j: int| 0 <= j < at ==> whole[j] == a[j]);
        assert(first == at);
        assert(whole.take(at) =~= a.take(at));
        assert(whole.skip(at + 1) =~= rest + seq![10u8] + b);
        let line = seq![without_return(a.take(at))];
        if rest.len() > 0 {
            rest.index_of_first_ensures(10u8);
            assert(lines(rest).len() > 0);
            assert(lines(a).last() == lines(rest).last());
            assert(rest.last() == a.last());
        }
        joined_texts_join_their_samples(rest, b, family);
        values_add_up(line, lines(rest + seq![10u8] + b), family);
        values_add_up(line, lines(rest), family);
        assert(sample_values(lines(whole), family) =~= sample_values(lines(a), family)
            + sample_values(lines(b), family));
    } else {
        let line = without_return(a);
        assert(forall|j: int| 0 <= j < a.len() ==> whole[j] == a[j]);
        assert(first == a.len());
        assert(whole.take(first) =~= a);
        assert(whole.skip(first + 1) =~= b);
        values_add_up(seq![line], lines(b), family);
        returns_make_no_sample(a, family);
        assert(sample_values(Seq::<Seq<u8>>::empty(), family) =~= Seq::<Seq<u8>>::empty());
        assert(seq![line].drop_last() =~= Seq::<Seq<u8>>::empty());
        assert(seq![a].drop_last() =~= Seq::<Seq<u8>>::empty());
        assert(seq![line].last() == line && seq![a].last() == a);
        if a.len() == 0 {
            assert(!is_sample(a, family));
        } else {
            assert(lines(a).last() == a);
            assert(line == a || !is_sample(a, family));
        }
        assert(sample_values(lines(a), family) =~= sample_values(seq![line], family));
        assert(sample_values(lines(whole), family) =~= sample_values(lines(a), family)
            + sample_values(lines(b), family));
    }
}

/// The order in which two texts are joined changes the order of their samples
/// and nothing else, unless one ends in a sample and a carriage return.
pub proof fn joined_texts_may_change_places(a: Seq<u8>, b: Seq<u8>, family: Seq<u8>)
    requires
        !ends_in_open_sample(a, family),
        !ends_in_open_sample(b, family),
    ensures
        sample_values(lines(a + seq![10u8] + b), family).to_multiset() == sample_values(
            lines(b + seq![10u8] + a),
            family,
        ).to_multiset(),
{
    joined_texts_join_their_samples(a, b, family);
    joined_texts_join_their_samples(b, a, family);
    vstd::seq_lib::lemma_seq_union_to_multiset_commutative(
        sample_values(lines(a), family),
        sample_values(lines(b), family),
    );
}

/// What was executed of what was received, given what failed of it.
pub open spec fn executed_of(received: Option<u64>, failed: Option<u64>) -> Option<u64> {
    match received {
        None => None,
        Some(received) => {
            let failed = match failed {
                Some(failed) => failed,
                None => 0,
            };
            Some(
                if received >= failed {
                    (received - failed) as u64
                } else {
                    0
                },
            )
        },
    }
}

/// How many transactions a validator executed: those that entered processing
/// minus the terminal failures, of which there may be no count yet.
pub fn executed_estimate(received: Option<u64>, failed: Option<u64>) -> (executed: Option<u64>)
    ensures
        executed == executed_of(received, failed),
{
    match received {
        None => None,
        Some(received) => {
            let failed: u64 = match failed {
                Some(failed) => failed,
                None => 0,
            };
            if received >= failed {
                Some(received - failed)
            } else {
                Some(0)
            }
        },
    }
}

/// A text without a line feed is one line, or none if it is empty. What comes
/// before a line feed, or before a carriage return and a line feed, is a line,
/// and the lines of the rest follow it.
pub proof fn lines_end_at_line_feeds(line: Seq<u8>, rest: Seq<u8>)
    requires
        forall|k: int| 0 <= k < line.len() ==> line[k] != 10,
    ensures
        line.len() > 0 ==> lines(line) == seq![line],
        line.len() == 0 ==> lines(line) == Seq::<Seq<u8>>::empty(),
        line.len() == 0 || line.last() != 13 ==> lines(line + seq![10u8] + rest) == seq![line]
            + lines(rest),
        lines(line + seq![13u8, 10u8] + rest) == seq![line] + lines(rest),
{
    let n = line.len() as int;
    line.index_of_first_ensures(10u8);
    let plain = line + seq![10u8] + rest;
    plain.index_of_first_ensures(10u8);
    assert(plain[n] == 10);
    assert(forall|k: int| 0 <= k < line.len() ==> plain[k] == line[k]);
    assert(plain.take(n) =~= line);
    assert(plain.skip(n + 1) =~= rest);
    let dos = line + seq![13u8, 10u8] + rest;
    dos.index_of_first_ensures(10u8);
    assert(dos[n + 1] == 10 && dos[n] == 13);
    assert(forall|k: int| 0 <= k < line.len() ==> dos[k] == line[k]);
    assert(dos.take(n + 1) =~= line.push(13));
    assert(line.push(13).drop_last() =~= line);
    assert(dos.skip(n + 2) =~= rest);
}

/// A line counts for a family only if it begins with the family's whole name
/// and a brace or a space comes next: longer names, other names and comments
/// do not count.
pub proof fn samples_begin_with_the_family(family: Seq<u8>, next: u8, rest: Seq<u8>, line: Seq<u8>)
    requires
        family.len() > 0,
        family[0] != 35,
    ensures
        is_sample(family + seq![next] + rest, family) <==> next == 123 || next == 32,
        !is_sample(family, family),
        is_sample(line, family) ==> exists|tail: Seq<u8>|
            line == #[trigger] (family + tail) && tail.len() > 0 && (tail[0] == 123 || tail[0]
                == 32),
        line.len() > 0 && line[0] == 35 ==> !is_sample(line, family),
{
    let whole = family + seq![next] + rest;
    assert(whole.take(family.len() as int) =~= family);
    assert(whole[family.len() as int] == next);
    assert(whole[0] == family[0]);
    if is_sample(line, family) {
        let tail = line.skip(family.len() as int);
        assert(line =~= family + tail);
    }
}

/// The value of a sample is what stands behind its last space.
pub proof fn values_stand_behind_the_last_space(before: Seq<u8>, value: Seq<u8>)
    requires
        forall|k: int| 0 <= k < value.len() ==> value[k] != 32,
    ensures
        last_field(value) == value,
        last_field(before + seq![32u8] + value) == value,
{
    value.index_of_last_ensures(32u8);
    let line = before + seq![32u8] + value;
    line.index_of_last_ensures(32u8);
    assert(line[before.len() as int] == 32);
    assert forall|k: int| before.len() < k < line.len() implies line[k] != 32 by {
        assert(line[k] == value[k - before.len() - 1]);
    }
    let at = line.index_of_last(32u8)->0;
    assert(at == before.len());
    assert(line.skip(at + 1) =~= value);
}

/// The values of some lines are those of the samples among them, in order: a
/// line that is no sample adds nothing, and a sample adds its last field.
pub proof fn values_come_from_samples(a: Seq<Seq<u8>>, b: Seq<Seq<u8>>, line: Seq<u8>, family: Seq<u8>)
    ensures
        sample_values(a + b, family) == sample_values(a, family) + sample_values(b, family),
        is_sample(line, family) ==> sample_values(seq![line], family) == seq![last_field(line)],
        !is_sample(line, family) ==> sample_values(seq![line], family) == Seq::<Seq<u8>>::empty(),
{
    values_add_up(a, b, family);
    assert(seq![line].drop_last() =~= Seq::<Seq<u8>>::empty());
    assert(sample_values(Seq::<Seq<u8>>::empty(), family) =~= Seq::<Seq<u8>>::empty());
    assert(seq![line].last() == line);
    if is_sample(line, family) {
        assert(sample_values(seq![line], family) =~= seq![last_field(line)]);
    }
}

/// What was executed and what failed add up to what was received, unless more
/// failed than was received: then nothing was executed. Without a count of
/// what was received there is none of what was executed, and without a count
/// of failures there were none.
pub proof fn executed_and_failed_are_received(received: u64, failed: u64)
    ensures
        failed <= received ==> (executed_of(Some(received), Some(failed)) matches Some(executed)
            && executed + failed == received),
        failed > received ==> executed_of(Some(received), Some(failed)) == Some(0u64),
        executed_of(Some(received), None) == Some(received),
        executed_of(None, Some(failed)) is None,
        executed_of(None, None) is None,
{
}

} // verus!
