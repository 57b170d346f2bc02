//! The record of buried entries: a text file whose first line is a header and
//! whose other lines each read `time<TAB>original path<TAB>holding path`.
//!
//! The functions here compute on the file's text; reading and writing the file
//! is left to the caller.
use vstd::prelude::*;
use crate::paths::{joined, join_absolute, starts_with, path_starts_with};
use crate::naming::answered;
use crate::text::{
    split_on, split_str, views, lemma_split_nonempty, lemma_split_pieces_free,
    lemma_split_push_sep, lemma_split_append_free,
};

verus! {

broadcast use vstd::string::group_string_axioms;

/// The name of the record file inside the graveyard.
pub const RECORD: &'static str = ".record";

/// The header line written to a new record.
pub const RECORD_HEADER: &'static str = "Time\tOriginal\tDestination";

/// The lines of a text, as `str::lines` gives them for text whose lines end in
/// `\n`: the pieces between newlines, without an empty piece after the last one.
pub open spec fn record_lines(content: Seq<char>) -> Seq<Seq<char>> {
    let pieces = split_on(content, '\n');
    if pieces.last().len() == 0 {
        pieces.drop_last()
    } else {
        pieces
    }
}

/// Each line followed by a newline.
pub open spec fn unlines(ls: Seq<Seq<char>>) -> Seq<char>
    decreases ls.len(),
{
    if ls.len() == 0 {
        Seq::empty()
    } else {
        unlines(ls.drop_last()) + ls.last().push('\n')
    }
}

/// The tab-separated columns of a line.
pub open spec fn columns(line: Seq<char>) -> Seq<Seq<char>> {
    split_on(line, '\t')
}

/// A line holds at least the three columns of a record.
pub open spec fn well_formed(line: Seq<char>) -> bool {
    columns(line).len() >= 3
}

/// The holding path that a record line names: its third column.
pub open spec fn grave_of(line: Seq<char>) -> Seq<char> {
    columns(line)[2]
}

pub open spec fn all_well_formed(ls: Seq<Seq<char>>) -> bool {
    forall|i: int| 0 <= i < ls.len() ==> well_formed(#[trigger] ls[i])
}

/// The lines begin with the header line.
pub open spec fn has_header(ls: Seq<Seq<char>>) -> bool {
    ls.len() > 0 && ls[0] == RECORD_HEADER@
}

/// The record lines: every line after the header, or every line where the
/// text does not begin with the header.
pub open spec fn entries(content: Seq<char>) -> Seq<Seq<char>> {
    let ls = record_lines(content);
    if has_header(ls) {
        ls.drop_first()
    } else {
        ls
    }
}

/// The lines whose holding path is not among `graves`, in order.
pub open spec fn without_graves(ls: Seq<Seq<char>>, graves: Seq<Seq<char>>) -> Seq<Seq<char>>
    decreases ls.len(),
{
    if ls.len() == 0 {
        ls
    } else {
        let kept = without_graves(ls.drop_last(), graves);
        if graves.contains(grave_of(ls.last())) {
            kept
        } else {
            kept.push(ls.last())
        }
    }
}

/// The record text once the lines for `graves` are removed: the header line,
/// then every other record line in order, each ending in a newline. `None`
/// where a record line is not a record.
pub open spec fn compacted(content: Seq<char>, graves: Seq<Seq<char>>) -> Option<Seq<char>> {
    if all_well_formed(entries(content)) {
        Some(unlines(seq![RECORD_HEADER@] + without_graves(entries(content), graves)))
    } else {
        None
    }
}

/// One line of the record.
#[derive(Debug)]
pub struct RecordItem {
    pub time: String,
    pub orig: String,
    pub dest: String,
}

/// What goes wrong with a record text.
#[derive(Debug)]
pub enum RecordError {
    /// A line after the header has fewer than three columns.
    BadFormat { line: String },
    /// A record's time is not an RFC 3339 date and time.
    BadTime { time: String },
}

impl RecordItem {
    /// Parse a line of the record into a `RecordItem`; a line with fewer than
    /// three tab-separated columns is an error. Columns after the third are
    /// ignored.
    pub fn new(line: &str) -> (r: Result<RecordItem, RecordError>)
        ensures
            r is Ok <==> well_formed(line@),
            r is Ok ==> {
                &&& r->Ok_0.time@ == columns(line@)[0]
                &&& r->Ok_0.orig@ == columns(line@)[1]
                &&& r->Ok_0.dest@ == columns(line@)[2]
            },
            r is Err ==> r->Err_0 is BadFormat && r->Err_0->line@ == line@,
    {
        let cols = split_str(line, '\t');
        if cols.len() < 3 {
            return Err(RecordError::BadFormat { line: line.to_owned() });
        }
        assert(views(cols@)[0] == cols@[0]@);
        assert(views(cols@)[1] == cols@[1]@);
        assert(views(cols@)[2] == cols@[2]@);
        Ok(RecordItem { time: cols[0].clone(), orig: cols[1].clone(), dest: cols[2].clone() })
    }
}

/// The lines of `content`.
pub fn split_lines(content: &str) -> (r: Vec<String>)
    ensures
        views(r@) == record_lines(content@),
{
    let mut pieces = split_str(content, '\n');
    proof {
        lemma_split_nonempty(content@, '\n');
    }
    let k = pieces.len() - 1;
    assert(views(pieces@)[k as int] == pieces@[k as int]@);
    if pieces[k].as_str().unicode_len() == 0 {
        let ghost before = pieces@;
        pieces.pop();
        assert(views(pieces@) =~= views(before).drop_last());
    }
    pieces
}

/// Whether `g` is one of `graves`.
pub fn contains_grave(graves: &[String], g: &String) -> (r: bool)
    ensures
        r == views(graves@).contains(g@),
{
    let mut j: usize = 0;
    while j < graves.len()
        invariant
            j <= graves@.len(),
            forall|i: int| 0 <= i < j ==> graves@[i]@ != g@,
        decreases graves.len() - j,
    {
        if graves[j].eq(g) {
            assert(views(graves@)[j as int] == g@);
            return true;
        }
        j = j + 1;
    }
    assert forall|i: int| 0 <= i < views(graves@).len() implies views(graves@)[i] != g@ by {
        assert(views(graves@)[i] == graves@[i]@);
    }
    false
}

/// The record lines of `content`.
pub fn split_entries(content: &str) -> (r: Vec<String>)
    ensures
        views(r@) == entries(content@),
{
    let lines = split_lines(content);
    if lines.len() > 0 && lines[0].eq(&RECORD_HEADER.to_owned()) {
        assert(views(lines@)[0] == lines@[0]@);
        let mut out: Vec<String> = Vec::new();
        let mut j: usize = 1;
        assert(views(lines@).subrange(1, 1) =~= views(out@));
        while j < lines.len()
            invariant
                1 <= j <= lines@.len(),
                views(lines@) == record_lines(content@),
                has_header(views(lines@)),
                views(out@) == views(lines@).subrange(1, j as int),
            decreases lines.len() - j,
        {
            let ghost before = out@;
            out.push(lines[j].clone());
            assert(views(out@) =~= views(before).push(lines@[j as int]@));
            assert(views(lines@).subrange(1, j + 1)
                =~= views(lines@).subrange(1, j as int).push(lines@[j as int]@));
            j = j + 1;
        }
        assert(views(lines@).subrange(1, j as int) =~= views(lines@).drop_first());
        out
    } else {
        proof {
            if lines@.len() > 0 {
                assert(views(lines@)[0] == lines@[0]@);
            }
        }
        lines
    }
}

/// Removes from the record text the lines whose holding path is one of
/// `graves`, keeping the order of the rest, and writes the header line first
/// (the text's own, or a new one where it had none); every line of the result
/// ends in a newline. A record line that is not a record is an error.
pub fn compact(content: &str, graves: &[String]) -> (r: Result<String, RecordError>)
    ensures
        r is Ok <==> compacted(content@, views(graves@)) is Some,
        r is Ok ==> r->Ok_0@ == compacted(content@, views(graves@))->0,
{
    let es_v = split_entries(content);
    let ghost es = entries(content@);
    let ghost gs = views(graves@);
    let ghost h = RECORD_HEADER@;
    proof {
        reveal_strlit("\n");
    }
    let mut out = RECORD_HEADER.to_owned();
    out.append("\n");
    assert(es.take(0) =~= Seq::<Seq<char>>::empty());
    assert(out@ =~= unlines(seq![h] + without_graves(es.take(0), gs))) by {
        assert(seq![h].drop_last() =~= Seq::<Seq<char>>::empty());
        assert(seq![h] + without_graves(es.take(0), gs) =~= seq![h]);
        assert(unlines(seq![h]) =~= unlines(Seq::<Seq<char>>::empty()) + h.push('\n'));
    }
    let mut j: usize = 0;
    while j < es_v.len()
        invariant
            j <= es_v@.len(),
            views(es_v@) == es,
            es == entries(content@),
            gs == views(graves@),
            h == RECORD_HEADER@,
            all_well_formed(es.take(j as int)),
            out@ == unlines(seq![h] + without_graves(es.take(j as int), gs)),
        decreases es_v.len() - j,
    {
        assert(views(es_v@)[j as int] == es_v@[j as int]@);
        let item = match RecordItem::new(es_v[j].as_str()) {
            Ok(item) => item,
            Err(e) => {
                assert(!all_well_formed(es));
                return Err(e);
            },
        };
        let ghost line = es[j as int];
        assert(es.take(j + 1).drop_last() =~= es.take(j as int));
        assert(es.take(j + 1).last() == line);
        let ghost kept = without_graves(es.take(j as int), gs);
        if !contains_grave(graves, &item.dest) {
            let ghost before = out@;
            proof {
                reveal_strlit("\n");
            }
            out.append(es_v[j].as_str());
            out.append("\n");
            assert((seq![h] + kept.push(line)).drop_last() =~= seq![h] + kept);
            assert(out@ =~= before + line.push('\n'));
        }
        assert(all_well_formed(es.take(j + 1))) by {
            assert forall|i: int| 0 <= i < es.take(j + 1).len() implies well_formed(#[trigger] es.take(j + 1)[i]) by {
                if i < j {
                    assert(es.take(j + 1)[i] == es.take(j as int)[i]);
                }
            }
        }
        j = j + 1;
    }
    assert(es.take(j as int) =~= es);
    Ok(out)
}

/// No line holds a newline.
pub open spec fn single_lines(ls: Seq<Seq<char>>) -> bool {
    forall|i: int, j: int| 0 <= i < ls.len() && 0 <= j < ls[i].len() ==> ls[i][j] != '\n'
}

proof fn lemma_split_unlines(ls: Seq<Seq<char>>)
    requires
        single_lines(ls),
    ensures
        split_on(unlines(ls), '\n') == ls.push(Seq::empty()),
    decreases ls.len(),
{
    if ls.len() == 0 {
        assert(split_on(unlines(ls), '\n') =~= ls.push(Seq::empty()));
    } else {
        let init = ls.drop_last();
        let l = ls.last();
        assert(single_lines(init)) by {
            assert forall|i: int, j: int| 0 <= i < init.len() && 0 <= j < init[i].len() implies init[i][j] != '\n' by {
                assert(init[i] == ls[i]);
            }
        }
        lemma_split_unlines(init);
        let u = unlines(init);
        assert(unlines(ls) =~= (u + l).push('\n'));
        lemma_split_push_sep(u + l, '\n');
        assert forall|j: int| 0 <= j < l.len() implies l[j] != '\n' by {
            assert(l == ls[ls.len() - 1]);
        }
        lemma_split_append_free(u, l, '\n');
        assert(Seq::<char>::empty() + l =~= l);
        assert(split_on(u + l, '\n') =~= ls);
    }
}

/// Writing lines out and reading them back gives the same lines.
pub proof fn lemma_record_lines_unlines(ls: Seq<Seq<char>>)
    requires
        single_lines(ls),
    ensures
        record_lines(unlines(ls)) == ls,
{
    lemma_split_unlines(ls);
    assert(ls.push(Seq::<char>::empty()).drop_last() =~= ls);
}

proof fn lemma_without_graves_sub(ls: Seq<Seq<char>>, graves: Seq<Seq<char>>)
    ensures
        forall|i: int| 0 <= i < without_graves(ls, graves).len() ==> {
            &&& ls.contains(#[trigger] without_graves(ls, graves)[i])
            &&& !graves.contains(grave_of(without_graves(ls, graves)[i]))
        },
    decreases ls.len(),
{
    if ls.len() > 0 {
        lemma_without_graves_sub(ls.drop_last(), graves);
        let k = without_graves(ls.drop_last(), graves);
        assert forall|i: int| 0 <= i < without_graves(ls, graves).len() implies {
            &&& ls.contains(#[trigger] without_graves(ls, graves)[i])
            &&& !graves.contains(grave_of(without_graves(ls, graves)[i]))
        } by {
            if i < k.len() {
                let x = k[i];
                let w = choose|w: int| 0 <= w < ls.drop_last().len() && ls.drop_last()[w] == x;
                assert(ls[w] == x);
            } else {
                assert(ls[ls.len() - 1] == ls.last());
            }
        }
    }
}

proof fn lemma_without_graves_keeps_all(ls: Seq<Seq<char>>, graves: Seq<Seq<char>>)
    requires
        forall|i: int| 0 <= i < ls.len() ==> !graves.contains(grave_of(#[trigger] ls[i])),
    ensures
        without_graves(ls, graves) == ls,
    decreases ls.len(),
{
    if ls.len() > 0 {
        assert(ls.last() == ls[ls.len() - 1]);
        lemma_without_graves_keeps_all(ls.drop_last(), graves);
        assert(ls.drop_last().push(ls.last()) =~= ls);
    }
}

/// The record lines are lines of the text.
proof fn lemma_entries_single(content: Seq<char>)
    ensures
        single_lines(record_lines(content)),
        single_lines(entries(content)),
{
    let ls = record_lines(content);
    let es = entries(content);
    lemma_split_pieces_free(content, '\n');
    lemma_split_nonempty(content, '\n');
    let pieces = split_on(content, '\n');
    assert forall|i: int, j: int| 0 <= i < ls.len() && 0 <= j < ls[i].len() implies ls[i][j] != '\n' by {
        assert(ls[i] == pieces[i]);
    }
    assert forall|i: int, j: int| 0 <= i < es.len() && 0 <= j < es[i].len() implies es[i][j] != '\n' by {
        if has_header(ls) {
            assert(es[i] == ls[i + 1]);
        } else {
            assert(es[i] == ls[i]);
        }
    }
}

proof fn lemma_header_single()
    ensures
        single_lines(seq![RECORD_HEADER@]),
        RECORD_HEADER@ == seq!['T', 'i', 'm', 'e', '\t', 'O', 'r', 'i', 'g', 'i', 'n', 'a', 'l', '\t', 'D', 'e', 's', 't', 'i', 'n', 'a', 't', 'i', 'o', 'n'],
{
    reveal_strlit("Time\tOriginal\tDestination");
    assert(RECORD_HEADER@ =~= seq!['T', 'i', 'm', 'e', '\t', 'O', 'r', 'i', 'g', 'i', 'n', 'a', 'l', '\t', 'D', 'e', 's', 't', 'i', 'n', 'a', 't', 'i', 'o', 'n']);
}

/// Compaction is idempotent: removing the lines for `graves` from a record
/// text, then removing them again from the result, changes nothing the second
/// time.
pub proof fn lemma_compaction_idempotent(content: Seq<char>, graves: Seq<Seq<char>>)
    requires
        compacted(content, graves) is Some,
    ensures
        compacted(compacted(content, graves)->0, graves) == compacted(content, graves),
{
    let es = entries(content);
    let h = RECORD_HEADER@;
    let kept = without_graves(es, graves);
    let out = seq![h] + kept;
    lemma_entries_single(content);
    lemma_header_single();
    lemma_without_graves_sub(es, graves);
    assert(single_lines(out)) by {
        assert forall|i: int, j: int| 0 <= i < out.len() && 0 <= j < out[i].len() implies out[i][j] != '\n' by {
            if i == 0 {
                assert(out[0] == seq![h][0]);
            } else {
                let x = kept[i - 1];
                assert(out[i] == x);
                assert(es.contains(x));
                let w = choose|w: int| 0 <= w < es.len() && es[w] == x;
                assert(es[w][j] != '\n');
            }
        }
    }
    lemma_record_lines_unlines(out);
    let c2 = unlines(out);
    assert(record_lines(c2) == out);
    assert(has_header(out));
    assert(entries(c2) =~= kept);
    assert(all_well_formed(kept)) by {
        assert forall|i: int| 0 <= i < kept.len() implies well_formed(#[trigger] kept[i]) by {
            let x = kept[i];
            assert(es.contains(x));
            let w = choose|w: int| 0 <= w < es.len() && es[w] == x;
            assert(well_formed(es[w]));
        }
    }
    lemma_without_graves_keeps_all(kept, graves);
}

/// The lines whose holding path is among `graves`, in order.
pub open spec fn with_graves(ls: Seq<Seq<char>>, graves: Seq<Seq<char>>) -> Seq<Seq<char>>
    decreases ls.len(),
{
    if ls.len() == 0 {
        ls
    } else {
        let kept = with_graves(ls.drop_last(), graves);
        if graves.contains(grave_of(ls.last())) {
            kept.push(ls.last())
        } else {
            kept
        }
    }
}

/// The lines whose holding path lies under `base`, in order.
pub open spec fn under(ls: Seq<Seq<char>>, base: Seq<char>) -> Seq<Seq<char>>
    decreases ls.len(),
{
    if ls.len() == 0 {
        ls
    } else {
        let kept = under(ls.drop_last(), base);
        if starts_with(grave_of(ls.last()), base) {
            kept.push(ls.last())
        } else {
            kept
        }
    }
}

/// `item` holds the first three columns of `line`.
pub open spec fn item_of(item: RecordItem, line: Seq<char>) -> bool {
    &&& item.time@ == columns(line)[0]
    &&& item.orig@ == columns(line)[1]
    &&& item.dest@ == columns(line)[2]
}

/// The holding paths of `es[k..]`, from the last line back.
pub open spec fn graves_back_to(es: Seq<Seq<char>>, k: int) -> Seq<Seq<char>> {
    Seq::new((es.len() - k) as nat, |i: int| grave_of(es[es.len() - 1 - i]))
}

/// The line that records `orig` buried at `dest` at time `time`.
pub open spec fn record_line(time: Seq<char>, orig: Seq<char>, dest: Seq<char>) -> Seq<char> {
    time + seq!['\t'] + orig + seq!['\t'] + dest + seq!['\n']
}

/// Text that can stand in a column: no tab and no newline.
pub open spec fn column_text(s: Seq<char>) -> bool {
    forall|i: int| 0 <= i < s.len() ==> s[i] != '\t' && s[i] != '\n'
}

/// The record of a graveyard: the path of its file.
#[derive(Debug)]
pub struct Record {
    path: String,
}

/// What the search for the last burial found.
#[derive(Debug)]
pub struct LastBury {
    /// The holding path of the most recent record whose entry still exists.
    pub grave: Option<String>,
    /// The record text without the records passed over, where there were any.
    pub rewrite: Option<String>,
}

impl View for Record {
    type V = Seq<char>;

    closed spec fn view(&self) -> Seq<char> {
        self.path@
    }
}

impl Record {
    /// The record of the graveyard at `graveyard`: the file `.record` in it.
    pub fn new(graveyard: &str) -> (r: Record)
        ensures
            r@ == joined(graveyard@, RECORD@),
    {
        Record { path: join_absolute(graveyard, RECORD) }
    }

    /// The path of the record file.
    pub fn path(&self) -> (r: &str)
        ensures
            r@ == self@,
    {
        self.path.as_str()
    }

    /// The text of a new record: the header line.
    pub fn initial_content() -> (r: String)
        ensures
            r@ == RECORD_HEADER@.push('\n'),
    {
        proof {
            reveal_strlit("\n");
        }
        let mut s = RECORD_HEADER.to_owned();
        s.append("\n");
        s
    }

    /// The record text once the graves in `graves_to_exhume` are taken out of it.
    pub fn log_exhumed_graves(&self, content: &str, graves_to_exhume: &[String]) -> (r: Result<String, RecordError>)
        ensures
            r is Ok <==> compacted(content@, views(graves_to_exhume@)) is Some,
            r is Ok ==> r->Ok_0@ == compacted(content@, views(graves_to_exhume@))->0,
    {
        compact(content, graves_to_exhume)
    }

    /// The record lines whose holding path is one of `graves`, in order.
    pub fn lines_of_graves(&self, content: &str, graves: &[String]) -> (r: Result<Vec<String>, RecordError>)
        ensures
            r is Ok <==> all_well_formed(entries(content@)),
            r is Ok ==> views(r->Ok_0@) == with_graves(entries(content@), views(graves@)),
    {
        let lines = split_entries(content);
        let items = parse_entries(&lines)?;
        let ghost es = entries(content@);
        let mut out: Vec<String> = Vec::new();
        let mut j: usize = 0;
        assert(es.take(0) =~= Seq::<Seq<char>>::empty());
        while j < items.len()
            invariant
                j <= items@.len() == es.len(),
                es == entries(content@),
                forall|i: int| 0 <= i < es.len() ==> item_of(#[trigger] items@[i], es[i]),
                views(lines@) == es,
                views(out@) == with_graves(es.take(j as int), views(graves@)),
            decreases items.len() - j,
        {
            assert(es.take(j + 1).drop_last() =~= es.take(j as int));
            assert(es.take(j + 1).last() == es[j as int]);
            assert(item_of(items@[j as int], es[j as int]));
            if contains_grave(graves, &items[j].dest) {
                assert(views(lines@)[j as int] == lines@[j as int]@);
                let ghost before = out@;
                out.push(lines[j].clone());
                assert(views(out@) =~= views(before).push(es[j as int]));
            }
            j = j + 1;
        }
        assert(es.take(j as int) =~= es);
        Ok(out)
    }

    /// The records whose holding path lies under `gravepath`, in order.
    pub fn seance(&self, content: &str, gravepath: &str) -> (r: Result<Vec<RecordItem>, RecordError>)
        ensures
            r is Ok <==> all_well_formed(entries(content@)),
            r is Ok ==> {
                let sel = under(entries(content@), gravepath@);
                &&& r->Ok_0@.len() == sel.len()
                &&& forall|i: int| 0 <= i < sel.len() ==> item_of(#[trigger] r->Ok_0@[i], sel[i])
            },
    {
        let lines = split_entries(content);
        let items = parse_entries(&lines)?;
        let ghost es = entries(content@);
        let mut out: Vec<RecordItem> = Vec::new();
        let mut j: usize = 0;
        assert(es.take(0) =~= Seq::<Seq<char>>::empty());
        while j < items.len()
            invariant
                j <= items@.len() == es.len(),
                es == entries(content@),
                forall|i: int| 0 <= i < es.len() ==> item_of(#[trigger] items@[i], es[i]),
                out@.len() == under(es.take(j as int), gravepath@).len(),
                forall|i: int| 0 <= i < out@.len() ==> item_of(#[trigger] out@[i], under(es.take(j as int), gravepath@)[i]),
            decreases items.len() - j,
        {
            assert(es.take(j + 1).drop_last() =~= es.take(j as int));
            assert(es.take(j + 1).last() == es[j as int]);
            assert(item_of(items@[j as int], es[j as int]));
            if path_starts_with(items[j].dest.as_str(), gravepath) {
                let item = RecordItem {
                    time: items[j].time.clone(),
                    orig: items[j].orig.clone(),
                    dest: items[j].dest.clone(),
                };
                out.push(item);
            }
            j = j + 1;
        }
        assert(es.take(j as int) =~= es);
        Ok(out)
    }

    /// Return the holding path of the last entry buried that still exists, by
    /// `occupied`, asking from the newest record back. The records passed over
    /// on the way are stale: their entries are gone, and the record text
    /// without them comes back as `rewrite`.
    pub fn get_last_bury<F: Fn(&str) -> bool>(&self, content: &str, occupied: &F) -> (r: Result<LastBury, RecordError>)
        requires
            forall|s: &str| occupied.requires((s,)),
        ensures
            all_well_formed(entries(content@)) ==> r is Ok,
            r is Err ==> !all_well_formed(entries(content@)),
            r is Ok ==> {
                let es = entries(content@);
                let lb = r->Ok_0;
                &&& lb.grave is Some ==> exists|k: int| {
                    &&& 0 <= k < es.len()
                    &&& #[trigger] grave_of(es[k]) == lb.grave->0@
                    &&& answered(*occupied, grave_of(es[k]), true)
                    &&& forall|j: int| k < j < es.len() ==> well_formed(es[j])
                        && answered(*occupied, #[trigger] grave_of(es[j]), false)
                    &&& lb.rewrite is Some <==> k + 1 < es.len()
                    &&& lb.rewrite is Some ==> compacted(content@, graves_back_to(es, k + 1)) == Some(lb.rewrite->0@)
                }
                &&& lb.grave is None ==> {
                    &&& all_well_formed(es)
                    &&& forall|j: int| 0 <= j < es.len() ==> answered(*occupied, #[trigger] grave_of(es[j]), false)
                    &&& lb.rewrite is Some <==> es.len() > 0
                    &&& lb.rewrite is Some ==> compacted(content@, graves_back_to(es, 0)) == Some(lb.rewrite->0@)
                }
            },
    {
        let lines = split_entries(content);
        let ghost es = entries(content@);
        let mut stale: Vec<String> = Vec::new();
        let mut k: usize = lines.len();
        assert(views(stale@) =~= graves_back_to(es, k as int));
        while k > 0
            invariant
                k <= es.len(),
                views(lines@) == es,
                es == entries(content@),
                forall|s: &str| occupied.requires((s,)),
                views(stale@) == graves_back_to(es, k as int),
                forall|j: int| k <= j < es.len() ==> well_formed(#[trigger] es[j]),
                forall|j: int| k <= j < es.len() ==> answered(*occupied, #[trigger] grave_of(es[j]), false),
            decreases k,
        {
            assert(views(lines@)[k - 1] == lines@[k - 1]@);
            let item = match RecordItem::new(lines[k - 1].as_str()) {
                Ok(item) => item,
                Err(e) => {
                    return Err(e);
                }
            };
            assert(item.dest@ == grave_of(es[k - 1]));
            if occupied(item.dest.as_str()) {
                assert(answered(*occupied, grave_of(es[k - 1]), true));
                let ghost kk = k - 1;
                assert(0 <= kk < es.len() && grave_of(es[kk]) == item.dest@);
                assert(views(stale@).len() == stale@.len());
                if stale.len() == 0 {
                    return Ok(LastBury { grave: Some(item.dest), rewrite: None });
                }
                let rewrite = compact(content, stale.as_slice())?;
                return Ok(LastBury { grave: Some(item.dest), rewrite: Some(rewrite) });
            }
            assert(answered(*occupied, grave_of(es[k - 1]), false));
            let ghost before = stale@;
            stale.push(item.dest);
            assert(views(stale@) =~= views(before).push(grave_of(es[k - 1])));
            assert(views(stale@) =~= graves_back_to(es, k - 1));
            k = k - 1;
        }
        if stale.len() == 0 {
            return Ok(LastBury { grave: None, rewrite: None });
        }
        let rewrite = compact(content, stale.as_slice())?;
        Ok(LastBury { grave: None, rewrite: Some(rewrite) })
    }

    /// The line that records `source` buried at `dest`, stamped with the
    /// present time as RFC 3339 text. A time that chrono cannot read back
    /// (a year past 9999) is an error, so that every line written here can be
    /// listed.
    pub fn write_log(&self, source: &str, dest: &str) -> (r: Result<String, RecordError>)
        ensures
            r is Ok ==> exists|t: Seq<char>| {
                &&& column_text(t)
                &&& #[trigger] seconds_text(t) is Some
                &&& r->Ok_0@ == record_line(t, source@, dest@)
            },
            r is Err ==> r->Err_0 is BadTime,
    {
        let time = now_rfc3339();
        if display_time(time.as_str()).is_none() {
            return Err(RecordError::BadTime { time });
        }
        let line = record_line_text(time.as_str(), source, dest);
        assert(seconds_text(time@) is Some);
        Ok(line)
    }
}

/// The record line for `orig` buried at `dest` at `time`.
pub fn record_line_text(time: &str, orig: &str, dest: &str) -> (r: String)
    ensures
        r@ == record_line(time@, orig@, dest@),
{
    proof {
        reveal_strlit("\t");
        reveal_strlit("\n");
    }
    let mut s = time.to_owned();
    s.append("\t");
    s.append(orig);
    s.append("\t");
    s.append(dest);
    s.append("\n");
    s
}

/// Relies on `chrono::Local::now` and `DateTime::to_rfc3339`: the present
/// local time as RFC 3339 text, which is digits, `-`, `:`, `.`, `+` and `T`
/// only, so never a tab or a newline.
#[verifier::external_body]
fn now_rfc3339() -> (r: String)
    ensures
        column_text(r@),
{
    chrono::Local::now().to_rfc3339()
}

/// Parses record lines.
fn parse_entries(lines: &Vec<String>) -> (r: Result<Vec<RecordItem>, RecordError>)
    ensures
        r is Ok <==> all_well_formed(views(lines@)),
        r is Ok ==> {
            &&& r->Ok_0@.len() == lines@.len()
            &&& forall|i: int| 0 <= i < r->Ok_0@.len() ==> item_of(#[trigger] r->Ok_0@[i], views(lines@)[i])
        },
{
    let ghost es = views(lines@);
    let mut items: Vec<RecordItem> = Vec::new();
    let mut j: usize = 0;
    while j < lines.len()
        invariant
            j <= lines@.len(),
            es == views(lines@),
            items@.len() == j,
            forall|i: int| 0 <= i < j ==> well_formed(#[trigger] es[i]),
            forall|i: int| 0 <= i < j ==> item_of(#[trigger] items@[i], es[i]),
        decreases lines.len() - j,
    {
        assert(es[j as int] == lines@[j as int]@);
        let item = match RecordItem::new(lines[j].as_str()) {
            Ok(item) => item,
            Err(e) => {
                return Err(e);
            },
        };
        let ghost before = items@;
        items.push(item);
        assert forall|i: int| 0 <= i < j + 1 implies item_of(#[trigger] items@[i], es[i]) by {
            if i < j {
                assert(items@[i] == before[i]);
            }
        }
        j = j + 1;
    }
    Ok(items)
}

proof fn lemma_columns_of_line(time: Seq<char>, orig: Seq<char>, dest: Seq<char>)
    requires
        column_text(time),
        column_text(orig),
        column_text(dest),
    ensures
        columns(time + seq!['\t'] + orig + seq!['\t'] + dest) == seq![time, orig, dest],
{
    let e = Seq::<char>::empty();
    lemma_split_append_free(e, time, '\t');
    assert(e + time =~= time);
    assert(split_on(e, '\t') =~= seq![e]);
    assert(split_on(time, '\t') =~= seq![time]);
    let a = time + seq!['\t'];
    assert(a =~= time.push('\t'));
    lemma_split_push_sep(time, '\t');
    assert(split_on(a, '\t') =~= seq![time, e]);
    lemma_split_append_free(a, orig, '\t');
    assert(split_on(a + orig, '\t') =~= seq![time, orig]);
    let b = a + orig + seq!['\t'];
    assert(b =~= (a + orig).push('\t'));
    lemma_split_push_sep(a + orig, '\t');
    assert(split_on(b, '\t') =~= seq![time, orig, e]);
    lemma_split_append_free(b, dest, '\t');
    assert(split_on(b + dest, '\t') =~= seq![time, orig, dest]);
}

/// Round trip of a record: appending the line for `orig` buried at `dest` to
/// a record text written as a header and lines, each ending in a newline, gives a text whose last
/// entry names `dest` as its holding path and `orig` as the path to restore it
/// to, the entries before it unchanged.
pub proof fn lemma_logged_entry_reads_back(
    ls: Seq<Seq<char>>,
    time: Seq<char>,
    orig: Seq<char>,
    dest: Seq<char>,
)
    requires
        has_header(ls),
        single_lines(ls),
        column_text(time),
        column_text(orig),
        column_text(dest),
    ensures
        ({
            let es = entries(unlines(ls) + record_line(time, orig, dest));
            &&& es.len() == ls.len()
            &&& es.drop_last() == ls.drop_first()
            &&& well_formed(es.last())
            &&& columns(es.last())[0] == time
            &&& columns(es.last())[1] == orig
            &&& grave_of(es.last()) == dest
        }),
{
    let line = time + seq!['\t'] + orig + seq!['\t'] + dest;
    let all = ls.push(line);
    assert(unlines(all) =~= unlines(ls) + record_line(time, orig, dest)) by {
        assert(all.drop_last() =~= ls);
    }
    assert(single_lines(all)) by {
        assert forall|i: int, j: int| 0 <= i < all.len() && 0 <= j < all[i].len() implies all[i][j] != '\n' by {
            if i < ls.len() {
                assert(all[i] == ls[i]);
            } else {
                assert(all[i] == line);
                if j < time.len() {
                    assert(line[j] == time[j]);
                } else if j == time.len() {
                } else if j < time.len() + 1 + orig.len() {
                    assert(line[j] == orig[j - time.len() - 1]);
                } else if j == time.len() + 1 + orig.len() {
                } else {
                    assert(line[j] == dest[j - time.len() - 2 - orig.len()]);
                }
            }
        }
    }
    lemma_record_lines_unlines(all);
    lemma_columns_of_line(time, orig, dest);
    assert(all[0] == ls[0]);
    let es = entries(unlines(all));
    assert(es =~= all.drop_first());
    assert(es.drop_last() =~= ls.drop_first());
}

/// The header line of a seance listing.
pub const SEANCE_HEADER: &'static str = "deletion_time      \tpath";

/// What chrono shows of an RFC 3339 time at a precision of seconds, without
/// its offset; `None` where the text is not an RFC 3339 time.
pub uninterp spec fn seconds_text(t: Seq<char>) -> Option<Seq<char>>;

/// Relies on `chrono::DateTime::parse_from_rfc3339`, then `format` with
/// `%Y-%m-%dT%H:%M:%S`: `None` exactly where the parse fails.
#[verifier::external_body]
fn display_time(t: &str) -> (r: Option<String>)
    ensures
        r.is_some() == seconds_text(t@).is_some(),
        r.is_some() ==> r->0@ == seconds_text(t@)->0,
{
    match chrono::DateTime::parse_from_rfc3339(t) {
        Ok(d) => Some(d.format("%Y-%m-%dT%H:%M:%S").to_string()),
        Err(_) => None,
    }
}

/// A line of the seance listing: the time as shown, a tab, the holding path.
pub open spec fn listing_line(shown: Seq<char>, dest: Seq<char>) -> Seq<char> {
    shown + seq!['\t'] + dest
}

/// The listing line for an entry at `dest` buried at the time shown as `shown`.
pub fn listing_line_text(shown: &str, dest: &str) -> (r: String)
    ensures
        r@ == listing_line(shown@, dest@),
{
    proof {
        reveal_strlit("\t");
    }
    let mut s = shown.to_owned();
    s.append("\t");
    s.append(dest);
    s
}

/// The lines that list `items`, one each, with each time shown to the second;
/// an item whose time is not an RFC 3339 time is an error.
pub fn seance_listing(items: &Vec<RecordItem>) -> (r: Result<Vec<String>, RecordError>)
    ensures
        r is Ok <==> forall|i: int| 0 <= i < items@.len() ==> seconds_text(#[trigger] items@[i].time@) is Some,
        r is Ok ==> r->Ok_0@.len() == items@.len(),
        r is Ok ==> forall|i: int| 0 <= i < items@.len() ==> #[trigger] r->Ok_0@[i]@
            == listing_line(seconds_text(items@[i].time@)->0, items@[i].dest@),
        r is Err ==> r->Err_0 is BadTime,
{
    let mut out: Vec<String> = Vec::new();
    let mut j: usize = 0;
    while j < items.len()
        invariant
            j <= items@.len(),
            out@.len() == j,
            forall|i: int| 0 <= i < j ==> seconds_text(#[trigger] items@[i].time@) is Some,
            forall|i: int| 0 <= i < j ==> #[trigger] out@[i]@
                == listing_line(seconds_text(items@[i].time@)->0, items@[i].dest@),
        decreases items.len() - j,
    {
        let shown = match display_time(items[j].time.as_str()) {
            Some(t) => t,
            None => {
                return Err(RecordError::BadTime { time: items[j].time.clone() });
            }
        };
        out.push(listing_line_text(shown.as_str(), items[j].dest.as_str()));
        j = j + 1;
    }
    Ok(out)
}

/// No two lines name the same holding path.
pub open spec fn distinct_graves(es: Seq<Seq<char>>) -> bool {
    forall|i: int, j: int| 0 <= i < j < es.len() ==> grave_of(es[i]) != grave_of(es[j])
}

proof fn lemma_without_later_graves(es: Seq<Seq<char>>, k: int, m: int)
    requires
        distinct_graves(es),
        -1 <= k < es.len(),
        0 <= m <= es.len(),
    ensures
        without_graves(es.take(m), graves_back_to(es, k + 1))
            == es.take(if m <= k + 1 { m } else { k + 1 }),
    decreases m,
{
    let s = graves_back_to(es, k + 1);
    let n = es.len();
    if m == 0 {
        assert(es.take(0) =~= Seq::<Seq<char>>::empty());
    } else {
        lemma_without_later_graves(es, k, m - 1);
        assert(es.take(m).drop_last() =~= es.take(m - 1));
        assert(es.take(m).last() == es[m - 1]);
        let g = grave_of(es[m - 1]);
        if m - 1 > k {
            let i = n - 1 - (m - 1);
            assert(s[i] == g);
        } else {
            if s.contains(g) {
                let i = choose|i: int| 0 <= i < s.len() && s[i] == g;
                assert(grave_of(es[n - 1 - i]) == g);
            }
            assert(es.take(m - 1).push(es[m - 1]) =~= es.take(m));
        }
    }
}

/// Self-healing scan: where the record names each holding path once and the
/// entry of its `k`-th record line (counting from 0; `-1` where none
/// exists) is the newest that still exists, taking out the lines the scan
/// passed over leaves the header and the lines up to the `k`-th, in order.
pub proof fn lemma_pruning_keeps_older(content: Seq<char>, k: int)
    requires
        all_well_formed(entries(content)),
        distinct_graves(entries(content)),
        -1 <= k < entries(content).len(),
    ensures
        compacted(content, graves_back_to(entries(content), k + 1))
            == Some(unlines(seq![RECORD_HEADER@] + entries(content).take(k + 1))),
{
    let es = entries(content);
    lemma_without_later_graves(es, k, es.len() as int);
    assert(es.take(es.len() as int) =~= es);
}

} // verus!
