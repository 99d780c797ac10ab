//! The list of past recordings: which files are recordings, what each entry
//! shows, and the newest-first order.
use vstd::prelude::*;
use vstd::multiset::Multiset;

use crate::text::{chars_of, lex_less, lex_less_exec, push_str, string_from_chars};

verus! {

broadcast use vstd::seq_lib::to_multiset_insert;

/// Text shown for a recording whose transcript file does not exist.
pub open spec fn no_transcript_text() -> Seq<char> {
    "[无转录结果]"@
}

/// The timestamp text of the Unix epoch.
pub open spec fn epoch_text() -> Seq<char> {
    "1970-01-01 00:00:00"@
}

/// What `chrono::DateTime::from_timestamp(secs, 0)` followed by formatting
/// with `%Y-%m-%d %H:%M:%S` gives: `None` when chrono cannot represent the
/// instant, the UTC date and time otherwise.
pub uninterp spec fn utc_datetime_text(secs: int) -> Option<Seq<char>>;

/// Calls `chrono::DateTime::from_timestamp(secs, 0)` and formats the
/// result with `%Y-%m-%d %H:%M:%S`. The result is a function of `secs`
/// alone (UTC, no time zone of the machine), named by `utc_datetime_text`.
/// chrono's documentation and source show that every instant from the epoch
/// to the end of year 9999 is representable, and that the epoch itself is
/// `1970-01-01 00:00:00`; nothing else is stated here of the text.
#[verifier::external_body]
fn format_utc(secs: i64) -> (r: Option<String>)
    ensures
        r is Some <==> utc_datetime_text(secs as int) is Some,
        r matches Some(t) ==> utc_datetime_text(secs as int) == Some(t@),
        0 <= secs <= 253402300799 ==> r is Some,
        r matches Some(t) ==> (secs == 0 ==> t@ == epoch_text()),
{
    match chrono::DateTime::from_timestamp(secs, 0) {
        Some(dt) => Some(dt.format("%Y-%m-%d %H:%M:%S").to_string()),
        None => None,
    }
}

/// Index of the last `.` in `name`, or -1 when there is none.
pub open spec fn last_dot(name: Seq<char>) -> int
    decreases name.len(),
{
    if name.len() == 0 {
        -1
    } else if name.last() == '.' {
        name.len() - 1
    } else {
        last_dot(name.drop_last())
    }
}

/// The extension of a file name, as `Path::extension` takes it: the part
/// after the last `.`, unless that dot is the first character or there is
/// none.
pub open spec fn extension_of(name: Seq<char>) -> Option<Seq<char>> {
    let i = last_dot(name);
    if i > 0 {
        Some(name.subrange(i + 1, name.len() as int))
    } else {
        None
    }
}

/// The stem of a file name, as `Path::file_stem` takes it: the part before
/// the last `.`, or the whole name when it has no extension.
pub open spec fn stem_of(name: Seq<char>) -> Seq<char> {
    let i = last_dot(name);
    if i > 0 {
        name.subrange(0, i)
    } else {
        name
    }
}

/// `last_dot` is a dot with none after it, or -1 for a name without dots.
proof fn lemma_last_dot(name: Seq<char>)
    ensures
        -1 <= last_dot(name) < name.len(),
        last_dot(name) >= 0 ==> name[last_dot(name)] == '.',
        forall|k: int| last_dot(name) < k < name.len() ==> name[k] != '.',
    decreases name.len(),
{
    if name.len() > 0 && name.last() != '.' {
        lemma_last_dot(name.drop_last());
        assert forall|k: int| last_dot(name) < k < name.len() implies name[k] != '.' by {
            if k < name.len() - 1 {
                assert(name[k] == name.drop_last()[k]);
            }
        }
    }
}

/// A name with an extension is its stem, a dot and the extension, where the
/// stem is not empty and the extension holds no dot; a name without one has
/// no dot after its first character, and is its own stem.
pub proof fn lemma_stem_dot_extension(name: Seq<char>)
    ensures
        extension_of(name) matches Some(e) ==> name == stem_of(name) + seq!['.'] + e
            && stem_of(name).len() >= 1 && forall|k: int| 0 <= k < e.len() ==> #[trigger] e[k] != '.',
        extension_of(name) is None ==> stem_of(name) == name && forall|k: int|
            1 <= k < name.len() ==> #[trigger] name[k] != '.',
{
    lemma_last_dot(name);
    let i = last_dot(name);
    if i > 0 {
        let e = name.subrange(i + 1, name.len() as int);
        assert(name =~= name.subrange(0, i) + seq!['.'] + e);
        assert forall|k: int| 0 <= k < e.len() implies #[trigger] e[k] != '.' by {
            assert(e[k] == name[i + 1 + k]);
        }
    }
}

/// The stem of a recording's file name: `Some` exactly for names whose
/// extension is `wav`.
pub fn wav_stem(file_name: &str) -> (r: Option<String>)
    ensures
        r is Some <==> extension_of(file_name@) == Some("wav"@),
        r matches Some(s) ==> s@ == stem_of(file_name@),
{
    let v = chars_of(file_name);
    let n = v.len();
    let mut i: usize = n;
    assert(file_name@.subrange(0, n as int) =~= file_name@);
    while i > 0 && v[i - 1] != '.'
        invariant
            v@ == file_name@,
            n == v@.len(),
            i <= n,
            last_dot(file_name@) == last_dot(file_name@.subrange(0, i as int)),
            forall|k: int| i <= k < n ==> v@[k] != '.',
        decreases i,
    {
        assert(file_name@.subrange(0, i as int).drop_last() =~= file_name@.subrange(0, i - 1));
        i = i - 1;
    }
    proof {
        assert(file_name@.subrange(0, n as int) =~= file_name@);
    }
    if i <= 1 {
        assert(last_dot(file_name@) <= 0);
        return None;
    }
    let dot = i - 1;
    assert(last_dot(file_name@) == dot);
    let ext = &v.as_slice()[dot + 1..n];
    proof {
        reveal_strlit("wav");
    }
    if ext.len() == 3 && ext[0] == 'w' && ext[1] == 'a' && ext[2] == 'v' {
        assert(ext@ =~= "wav"@);
        Some(string_from_chars(&v.as_slice()[0..dot]))
    } else {
        assert(ext@ != "wav"@ ==> file_name@.subrange(dot + 1, n as int) != "wav"@);
        None
    }
}

/// Name of the recording file of `id`.
pub fn wav_file_name(id: &str) -> (name: String)
    ensures
        name@ == id@ + ".wav"@,
{
    let mut v: Vec<char> = Vec::new();
    push_str(&mut v, id);
    push_str(&mut v, ".wav");
    string_from_chars(v.as_slice())
}

/// Name of the transcript file of `id`.
pub fn txt_file_name(id: &str) -> (name: String)
    ensures
        name@ == id@ + ".txt"@,
{
    let mut v: Vec<char> = Vec::new();
    push_str(&mut v, id);
    push_str(&mut v, ".txt");
    string_from_chars(v.as_slice())
}

/// What is known of one recording file when the list is built.
pub struct RecordingEntry {
    /// The file name without its extension; it identifies the recording.
    pub stem: String,
    /// The path of the recording file.
    pub audio_file: String,
    /// The contents of the transcript file, or `None` when it does not exist.
    pub transcript: Option<String>,
    /// Creation time of the file in seconds since the epoch, when known.
    pub created_secs: Option<u64>,
}

/// One entry of the list of recordings.
pub struct RecordingItem {
    pub id: String,
    pub timestamp: String,
    pub audio_file: String,
    pub text: String,
}

impl View for RecordingItem {
    type V = (Seq<char>, Seq<char>, Seq<char>, Seq<char>);

    open spec fn view(&self) -> (Seq<char>, Seq<char>, Seq<char>, Seq<char>) {
        (self.id@, self.timestamp@, self.audio_file@, self.text@)
    }
}

/// The timestamp shown for a recording: its creation time as a UTC date and
/// time (the epoch when chrono cannot represent it), or its stem when the
/// creation time is unknown.
pub open spec fn timestamp_text(created_secs: Option<u64>, stem: Seq<char>) -> Seq<char> {
    match created_secs {
        Some(s) => match utc_datetime_text((s as i64) as int) {
            Some(t) => t,
            None => epoch_text(),
        },
        None => stem,
    }
}

/// The text shown for a recording: its transcript, or a notice when there is
/// no transcript file.
pub open spec fn transcript_text(transcript: Option<String>) -> Seq<char> {
    match transcript {
        Some(t) => t@,
        None => no_transcript_text(),
    }
}

/// The list entry of a recording file, as views.
pub open spec fn entry_view(e: RecordingEntry) -> (Seq<char>, Seq<char>, Seq<char>, Seq<char>) {
    (e.stem@, timestamp_text(e.created_secs, e.stem@), e.audio_file@, transcript_text(e.transcript))
}

/// The timestamp shown for a recording.
pub fn recording_timestamp(created_secs: Option<u64>, stem: &str) -> (t: String)
    ensures
        t@ == timestamp_text(created_secs, stem@),
{
    match created_secs {
        Some(s) => {
            #[verifier::truncate]
            let secs = s as i64;
            match format_utc(secs) {
                Some(t) => t,
                None => match format_utc(0) {
                    Some(t) => t,
                    None => String::new(),
                },
            }
        },
        None => stem.to_string(),
    }
}

/// The list entry of a recording file.
pub fn recording_item(e: RecordingEntry) -> (item: RecordingItem)
    ensures
        item@ == entry_view(e),
{
    let timestamp = recording_timestamp(e.created_secs, e.stem.as_str());
    let text = match e.transcript {
        Some(t) => t,
        None => "[无转录结果]".to_string(),
    };
    RecordingItem { id: e.stem, timestamp, audio_file: e.audio_file, text }
}

/// Newest first: no entry's id is below a later entry's id.
pub open spec fn newest_first(items: Seq<(Seq<char>, Seq<char>, Seq<char>, Seq<char>)>) -> bool {
    forall|i: int, j: int| 0 <= i < j < items.len() ==> !lex_less(#[trigger] items[i].0, #[trigger] items[j].0)
}

/// The views of a sequence of items.
pub open spec fn views(items: Seq<RecordingItem>) -> Seq<(Seq<char>, Seq<char>, Seq<char>, Seq<char>)> {
    items.map_values(|it: RecordingItem| it@)
}

/// Lexicographic order is transitive.
pub proof fn lemma_lex_less_transitive(a: Seq<char>, b: Seq<char>, c: Seq<char>)
    requires
        lex_less(a, b),
        lex_less(b, c),
    ensures
        lex_less(a, c),
    decreases a.len(),
{
    if a.len() > 0 && b.len() > 0 && c.len() > 0 && a[0] == b[0] && b[0] == c[0] {
        lemma_lex_less_transitive(a.drop_first(), b.drop_first(), c.drop_first());
    }
}

/// Nothing comes before itself in lexicographic order.
pub proof fn lemma_lex_less_irreflexive(a: Seq<char>)
    ensures
        !lex_less(a, a),
    decreases a.len(),
{
    if a.len() > 0 {
        lemma_lex_less_irreflexive(a.drop_first());
    }
}

/// Of two sequences, one comes before the other.
pub proof fn lemma_lex_less_asymmetric(a: Seq<char>, b: Seq<char>)
    requires
        lex_less(a, b),
    ensures
        !lex_less(b, a),
{
    if lex_less(b, a) {
        lemma_lex_less_transitive(a, b, a);
        lemma_lex_less_irreflexive(a);
    }
}

/// Of two different sequences, one comes before the other.
pub proof fn lemma_lex_less_total(a: Seq<char>, b: Seq<char>)
    ensures
        a == b || lex_less(a, b) || lex_less(b, a),
    decreases a.len(),
{
    if a.len() > 0 && b.len() > 0 && a[0] == b[0] {
        lemma_lex_less_total(a.drop_first(), b.drop_first());
        if a.drop_first() == b.drop_first() {
            assert(a =~= seq![a[0]] + a.drop_first());
            assert(b =~= seq![b[0]] + b.drop_first());
        }
    } else if a.len() > 0 && b.len() > 0 {
        vstd::utf8::char_u32_cast(a[0], a[0] as u32);
        vstd::utf8::char_u32_cast(b[0], b[0] as u32);
    } else if a.len() == 0 && b.len() == 0 {
        assert(a =~= b);
    }
}

/// Sorts recordings newest first: by id, descending. The result holds the
/// same entries.
pub fn sort_newest_first(items: Vec<RecordingItem>) -> (sorted: Vec<RecordingItem>)
    ensures
        views(sorted@).to_multiset() == views(items@).to_multiset(),
        newest_first(views(sorted@)),
{
    let mut rest = items;
    let mut out: Vec<RecordingItem> = Vec::new();
    let ghost all = items@;
    proof {
        assert(views(out@) =~= Seq::empty());
        vstd::seq_lib::to_multiset_len(views(out@));
        vstd::multiset::lemma_multiset_empty_len(views(out@).to_multiset());
        assert(views(out@).to_multiset() =~= Multiset::empty());
        assert(views(out@).to_multiset().add(views(rest@).to_multiset()) =~= views(all).to_multiset());
    }
    while rest.len() > 0
        invariant
            views(out@).to_multiset().add(views(rest@).to_multiset()) == views(all).to_multiset(),
            newest_first(views(out@)),
        decreases rest.len(),
    {
        let ghost before_rest = rest@;
        let x = rest.pop().unwrap();
        proof {
            assert(before_rest =~= rest@.push(x));
            assert(views(before_rest) =~= views(rest@).push(x@));
            vstd::seq_lib::to_multiset_build(views(rest@), x@);
        }
        let xid = chars_of(x.id.as_str());
        let mut p: usize = 0;
        while p < out.len() && lex_less_exec(xid.as_slice(), chars_of(out[p].id.as_str()).as_slice())
            invariant
                p <= out@.len(),
                xid@ == x.id@,
                forall|k: int| 0 <= k < p ==> lex_less(x.id@, #[trigger] out@[k].id@),
            decreases out@.len() - p,
        {
            p = p + 1;
        }
        let ghost before_out = out@;
        out.insert(p, x);
        proof {
            assert(views(out@) =~= views(before_out).insert(p as int, x@));
            assert forall|i: int, j: int| 0 <= i < j < out@.len() implies !lex_less(
                #[trigger] views(out@)[i].0,
                #[trigger] views(out@)[j].0,
            ) by {
                if j == p {
                    assert(views(out@)[i].0 == before_out[i].id@);
                    assert(lex_less(x.id@, before_out[i].id@));
                    lemma_lex_less_asymmetric(x.id@, before_out[i].id@);
                } else if i == p {
                    let b = before_out[j - 1].id@;
                    let a = before_out[p as int].id@;
                    assert(!lex_less(x.id@, a));
                    assert(views(before_out)[p as int].0 == a);
                    assert(views(before_out)[j - 1].0 == b);
                    assert(views(out@)[j].0 == b);
                    if lex_less(x.id@, b) {
                        if j - 1 > p {
                            assert(!lex_less(views(before_out)[p as int].0, views(before_out)[j - 1].0));
                        }
                        lemma_lex_less_total(x.id@, a);
                        if lex_less(a, x.id@) {
                            lemma_lex_less_transitive(a, x.id@, b);
                        }
                    }
                } else {
                    let ii = if i < p { i } else { i - 1 };
                    let jj = if j < p { j } else { j - 1 };
                    assert(views(out@)[i] == views(before_out)[ii]);
                    assert(views(out@)[j] == views(before_out)[jj]);
                }
            }
        }
    }
    proof {
        assert(rest@ =~= Seq::<RecordingItem>::empty());
        assert(views(rest@) =~= Seq::empty());
        vstd::seq_lib::to_multiset_len(views(rest@));
        vstd::multiset::lemma_multiset_empty_len(views(rest@).to_multiset());
        assert(views(rest@).to_multiset() =~= Multiset::empty());
        assert(views(out@).to_multiset().add(Multiset::empty()) =~= views(out@).to_multiset());
    }
    out
}

/// The list of recordings: one entry per recording file, newest first.
pub fn list_recordings(entries: Vec<RecordingEntry>) -> (items: Vec<RecordingItem>)
    ensures
        views(items@).to_multiset() == entries@.map_values(|e: RecordingEntry| entry_view(e)).to_multiset(),
        newest_first(views(items@)),
{
    let mut rest = entries;
    let ghost all = entries@;
    let mut built: Vec<RecordingItem> = Vec::new();
    while rest.len() > 0
        invariant
            views(built@) + all.take(rest@.len() as int).reverse().map_values(
                |e: RecordingEntry| entry_view(e),
            ) =~= all.reverse().map_values(|e: RecordingEntry| entry_view(e)),
            rest@ == all.take(rest@.len() as int),
            rest@.len() <= all.len(),
        decreases rest.len(),
    {
        let ghost n = rest@.len();
        let e = rest.pop().unwrap();
        proof {
            assert(all.take(n as int)[n - 1] == e);
            assert(rest@ =~= all.take(n - 1));
        }
        let item = recording_item(e);
        built.push(item);
        proof {
            assert(views(built@) =~= views(built@.drop_last()).push(item@));
            assert(all.take(n as int).reverse() =~= seq![e] + all.take(n - 1).reverse());
        }
    }
    proof {
        assert(all.take(0).reverse() =~= Seq::<RecordingEntry>::empty());
        lemma_reverse_map_multiset(all);
    }
    sort_newest_first(built)
}

proof fn lemma_reverse_map_multiset(all: Seq<RecordingEntry>)
    ensures
        all.reverse().map_values(|e: RecordingEntry| entry_view(e)).to_multiset() == all.map_values(
            |e: RecordingEntry| entry_view(e),
        ).to_multiset(),
{
    let f = |e: RecordingEntry| entry_view(e);
    assert(all.reverse().map_values(f) =~= all.map_values(f).reverse());
    all.map_values(f).lemma_reverse_to_multiset();
}

} // verus!
