use vstd::prelude::*;
use crate::record::{field_value, record_of_tokens, AccessLog, FIELD_COUNT, TARGET_STATUS_CODE};
use crate::partition::{lemma_batches_fit, lemma_partition_complete, partition, partition_of};
use crate::tokenizer::{
    field_fits, join_fields, lemma_join_round_trip, tokenize, tokens_of, views,
};
use vstd::seq_lib::lemma_flatten_concat;

verus! {

/// The record that a line maps to.
pub open spec fn line_record(line: Seq<char>) -> Seq<Option<Seq<char>>> {
    record_of_tokens(tokens_of(line))
}

/// A record is of interest when no status code came back from the target.
pub open spec fn is_of_interest(rec: Seq<Option<Seq<char>>>) -> bool {
    rec[TARGET_STATUS_CODE as int] is None
}

/// The records of interest among `lines`, in line order.
pub open spec fn interest_records(lines: Seq<Seq<char>>) -> Seq<Seq<Option<Seq<char>>>> {
    lines.map_values(|l: Seq<char>| line_record(l)).filter(|r: Seq<Option<Seq<char>>>| is_of_interest(r))
}

/// A line of exactly as many fields as a record has, each one fitting and followed by its
/// terminator, reads back as those fields and maps to a record that holds each of them
/// verbatim, except where a placeholder stands for an absent value.
pub proof fn lemma_line_round_trip(fs: Seq<Seq<char>>, qs: Seq<bool>)
    requires
        fs.len() == FIELD_COUNT,
        qs.len() == FIELD_COUNT,
        forall|i: int| 0 <= i < fs.len() ==> field_fits(#[trigger] fs[i], qs[i]),
    ensures
        tokens_of(join_fields(fs, qs)) == fs,
        line_record(join_fields(fs, qs)) == Seq::new(
            FIELD_COUNT as nat,
            |i: int| field_value(i, fs[i]),
        ),
{
    lemma_join_round_trip(fs, qs);
    assert(line_record(join_fields(fs, qs)) =~= Seq::new(
        FIELD_COUNT as nat,
        |i: int| field_value(i, fs[i]),
    ));
}

/// A record comes out of a run of lines if and only if it is the record of one of the
/// lines and has no target status code.
pub proof fn lemma_filter_correct(lines: Seq<Seq<char>>, rec: Seq<Option<Seq<char>>>)
    ensures
        interest_records(lines).contains(rec) <==> (is_of_interest(rec) && exists|i: int|
            0 <= i < lines.len() && #[trigger] line_record(lines[i]) == rec),
{
    let f = |l: Seq<char>| line_record(l);
    let p = |r: Seq<Option<Seq<char>>>| is_of_interest(r);
    let m = lines.map_values(f);
    m.filter_lemma(p);
    if interest_records(lines).contains(rec) {
        m.lemma_filter_contains_rev(p, rec);
        let i = choose|i: int| 0 <= i < m.len() && m[i] == rec;
        assert(line_record(lines[i]) == rec);
        let j = choose|j: int| 0 <= j < m.filter(p).len() && m.filter(p)[j] == rec;
        assert(p(m.filter(p)[j]));
    }
    if is_of_interest(rec) && exists|i: int| 0 <= i < lines.len() && #[trigger] line_record(lines[i]) == rec {
        let i = choose|i: int| 0 <= i < lines.len() && #[trigger] line_record(lines[i]) == rec;
        assert(m[i] == rec);
    }
}

/// The views of a sequence of records.
pub open spec fn record_views(v: Seq<AccessLog>) -> Seq<Seq<Option<Seq<char>>>> {
    v.map_values(|r: AccessLog| r@)
}

/// Maps one line to its record and keeps it when it is of interest. The flag tells whether
/// the line held more fields than a record has.
pub fn analyze_line(line: &str) -> (r: (Option<AccessLog>, bool))
    ensures
        match r.0 {
            Some(rec) => is_of_interest(line_record(line@)) && rec@ == line_record(line@),
            None => !is_of_interest(line_record(line@)),
        },
        r.1 == (tokens_of(line@).len() > FIELD_COUNT),
{
    let (tokens, overflow) = tokenize(line, FIELD_COUNT);
    let rec = AccessLog::from_tokens(&tokens);
    assert(record_of_tokens(views(tokens@)) =~= line_record(line@));
    if rec.is_of_interest() {
        (Some(rec), overflow)
    } else {
        (None, overflow)
    }
}

/// The records of interest among the lines of one file, in line order.
pub fn analyze_lines(lines: &Vec<String>) -> (r: Vec<AccessLog>)
    ensures
        record_views(r@) == interest_records(views(lines@)),
{
    let mut out: Vec<AccessLog> = Vec::new();
    let mut i: usize = 0;
    while i < lines.len()
        invariant
            i <= lines@.len(),
            record_views(out@) == interest_records(views(lines@).take(i as int)),
        decreases lines@.len() - i,
    {
        let (rec, _) = analyze_line(lines[i].as_str());
        let ghost prefix = views(lines@).take(i as int);
        let ghost line = lines@[i as int]@;
        proof {
            assert(views(lines@).take(i + 1) =~= prefix.push(line));
            assert(prefix.push(line).map_values(|l: Seq<char>| line_record(l)) =~= prefix.map_values(
                |l: Seq<char>| line_record(l),
            ).push(line_record(line)));
            prefix.map_values(|l: Seq<char>| line_record(l)).lemma_filter_push(
                line_record(line),
                |r: Seq<Option<Seq<char>>>| is_of_interest(r),
            );
        }
        match rec {
            Some(rec) => {
                let ghost before = out@;
                out.push(rec);
                assert(record_views(out@) =~= record_views(before).push(rec@));
            },
            None => {},
        }
        i = i + 1;
    }
    assert(views(lines@).take(i as int) =~= views(lines@));
    out
}

/// The lines of each file, as views.
pub open spec fn file_views(files: Seq<Vec<String>>) -> Seq<Seq<Seq<char>>> {
    files.map_values(|f: Vec<String>| views(f@))
}

/// The records of interest of one batch of files, file after file.
pub open spec fn batch_records(batch: Seq<Seq<Seq<char>>>) -> Seq<Seq<Option<Seq<char>>>> {
    interest_records(batch.flatten())
}

/// The records of interest when `files` are cut into `workers` batches and the results of
/// the batches are put together in batch order.
pub open spec fn pipeline(files: Seq<Seq<Seq<char>>>, workers: int) -> Seq<Seq<Option<Seq<char>>>> {
    partition_of(files, workers).map_values(|b: Seq<Seq<Seq<char>>>| batch_records(b)).flatten()
}

/// The records of interest of two runs of lines, one after the other, are those of the
/// first followed by those of the second.
pub proof fn lemma_interest_concat(a: Seq<Seq<char>>, b: Seq<Seq<char>>)
    ensures
        interest_records(a + b) == interest_records(a) + interest_records(b),
{
    let f = |l: Seq<char>| line_record(l);
    let p = |r: Seq<Option<Seq<char>>>| is_of_interest(r);
    assert((a + b).map_values(f) =~= a.map_values(f) + b.map_values(f));
    Seq::filter_distributes_over_add(a.map_values(f), b.map_values(f), p);
}

proof fn lemma_batches_records(bs: Seq<Seq<Seq<Seq<char>>>>)
    ensures
        bs.map_values(|b: Seq<Seq<Seq<char>>>| batch_records(b)).flatten() == interest_records(
            bs.flatten().flatten(),
        ),
    decreases bs.len(),
{
    let f = |b: Seq<Seq<Seq<char>>>| batch_records(b);
    if bs.len() == 0 {
        assert(bs.map_values(f) =~= Seq::<Seq<Seq<Option<Seq<char>>>>>::empty());
        assert(bs.flatten().flatten() =~= Seq::<Seq<char>>::empty());
        assert(interest_records(Seq::<Seq<char>>::empty()) =~= Seq::<Seq<Option<Seq<char>>>>::empty()) by {
            reveal(Seq::filter);
        }
    } else {
        let rest = bs.drop_first();
        lemma_batches_records(rest);
        assert(bs.map_values(f).drop_first() =~= rest.map_values(f));
        lemma_flatten_concat(bs[0], rest.flatten());
        lemma_interest_concat(bs[0].flatten(), rest.flatten().flatten());
    }
}

/// How many workers share the files does not change which records come out: the result of
/// any number of batches, put together in batch order, is the result of one batch, and so
/// holds the same records as any other order of arrival.
pub proof fn lemma_workers_do_not_change_result(files: Seq<Seq<Seq<char>>>, workers: int)
    requires
        1 <= workers,
    ensures
        pipeline(files, workers) == interest_records(files.flatten()),
        pipeline(files, workers) == pipeline(files, 1),
        pipeline(files, workers).to_multiset() == pipeline(files, 1).to_multiset(),
{
    lemma_partition_complete(files, workers);
    lemma_partition_complete(files, 1);
    lemma_batches_records(partition_of(files, workers));
    lemma_batches_records(partition_of(files, 1));
}

/// The records of interest of a batch of files, file after file and line after line.
pub fn analyze_files(files: &Vec<Vec<String>>) -> (r: Vec<AccessLog>)
    ensures
        record_views(r@) == batch_records(file_views(files@)),
{
    let mut out: Vec<AccessLog> = Vec::new();
    let mut i: usize = 0;
    while i < files.len()
        invariant
            i <= files@.len(),
            record_views(out@) == interest_records(file_views(files@).take(i as int).flatten()),
        decreases files@.len() - i,
    {
        let mut found = analyze_lines(&files[i]);
        let ghost prefix = file_views(files@).take(i as int);
        let ghost before = out@;
        let ghost got = found@;
        proof {
            assert(file_views(files@).take(i + 1) =~= prefix.push(views(files@[i as int]@)));
            prefix.lemma_flatten_push(views(files@[i as int]@));
            lemma_interest_concat(prefix.flatten(), views(files@[i as int]@));
        }
        out.append(&mut found);
        assert(record_views(out@) =~= record_views(before) + record_views(got));
        i = i + 1;
    }
    assert(file_views(files@).take(i as int) =~= file_views(files@));
    out
}

/// Puts the results of several workers together, in the order given.
pub fn merge(results: Vec<Vec<AccessLog>>) -> (r: Vec<AccessLog>)
    ensures
        record_views(r@) == results@.map_values(|b: Vec<AccessLog>| record_views(b@)).flatten(),
{
    let ghost orig = results@;
    let ghost all = orig.map_values(|b: Vec<AccessLog>| record_views(b@));
    let mut out: Vec<AccessLog> = Vec::new();
    let mut rest = results;
    let mut i: usize = 0;
    let n = rest.len();
    assert(all.take(0) =~= Seq::<Seq<Seq<Option<Seq<char>>>>>::empty());
    assert(rest@ =~= orig.subrange(0, n as int));
    while i < n
        invariant
            n == orig.len(),
            i <= n,
            rest@ == orig.subrange(i as int, n as int),
            all == orig.map_values(|b: Vec<AccessLog>| record_views(b@)),
            record_views(out@) == all.take(i as int).flatten(),
        decreases n - i,
    {
        let mut batch = rest.remove(0);
        let ghost before = out@;
        proof {
            assert(all.take(i + 1) =~= all.take(i as int).push(all[i as int]));
            all.take(i as int).lemma_flatten_push(all[i as int]);
        }
        out.append(&mut batch);
        assert(record_views(out@) =~= record_views(before) + all[i as int]);
        assert(rest@ =~= orig.subrange(i + 1, n as int));
        i = i + 1;
    }
    assert(all.take(n as int) =~= all);
    out
}

/// Cuts the files into `worker_count` batches, finds the records of interest of each batch,
/// and puts them together in batch order.
pub fn run(files: Vec<Vec<String>>, worker_count: usize) -> (r: Vec<AccessLog>)
    requires
        worker_count >= 1,
    ensures
        record_views(r@) == pipeline(file_views(files@), worker_count as int),
{
    let ghost fv = file_views(files@);
    let batches = partition(files, worker_count);
    let ghost parts = partition_of(fv, worker_count as int);
    proof {
        let pb = batches@.map_values(|b: Vec<Vec<String>>| b@);
        assert(pb.len() == batches@.len());
        assert forall|j: int| 0 <= j < worker_count implies #[trigger] file_views(batches@[j]@)
            == parts[j] by {
            assert(pb[j] == batches@[j]@);
            assert(fv.len() == files@.len());
            lemma_batches_fit(fv.len() as int, worker_count as int, j);
            lemma_batches_fit(fv.len() as int, worker_count as int, j + 1);
            assert(file_views(batches@[j]@).len() == parts[j].len());
            assert(file_views(batches@[j]@) =~= parts[j]);
        }
    }
    let mut results: Vec<Vec<AccessLog>> = Vec::new();
    let mut i: usize = 0;
    while i < batches.len()
        invariant
            i <= batches@.len(),
            batches@.len() == worker_count,
            parts.len() == worker_count,
            forall|j: int| 0 <= j < worker_count ==> #[trigger] file_views(batches@[j]@) == parts[j],
            results@.len() == i,
            forall|j: int| 0 <= j < i ==> #[trigger] record_views(results@[j]@) == batch_records(parts[j]),
        decreases batches@.len() - i,
    {
        let found = analyze_files(&batches[i]);
        results.push(found);
        i = i + 1;
    }
    let r = merge(results);
    assert(results@.map_values(|b: Vec<AccessLog>| record_views(b@)) =~= parts.map_values(
        |b: Seq<Seq<Seq<char>>>| batch_records(b),
    ));
    r
}

} // verus!
