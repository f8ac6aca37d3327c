//! Statistics about a screenplay: who speaks how often and how much, and how
//! many actions and scenes there are.
use vstd::prelude::*;
use crate::constants::DEFAULT_NUM_SPEAKER_STATS;
use crate::document::{elements_view, strings_view, word_count, FarceDocument, FarceElement, SElement};
use crate::text::{decimal, decimal_string, push_char, push_decimal};
use vstd::utf8::encode_utf8;

verus! {

/// How often a character speaks, and how many words in all.
#[derive(Debug, Copy, Clone)]
pub struct CharacterStats {
    pub num_speeches: usize,
    pub num_words: usize,
}

/// A speaker's name, number of speeches and number of words.
pub type SpeakerEntry = (Seq<char>, nat, nat);

pub open spec fn entries_view(v: Seq<(String, CharacterStats)>) -> Seq<SpeakerEntry> {
    v.map_values(|e: (String, CharacterStats)| (e.0@, e.1.num_speeches as nat, e.1.num_words as nat))
}

/// The position of the last entry for `name`, or -1.
pub open spec fn speaker_index(t: Seq<SpeakerEntry>, name: Seq<char>) -> int
    decreases t.len(),
{
    if t.len() == 0 {
        -1
    } else if t.last().0 == name {
        t.len() - 1
    } else {
        speaker_index(t.drop_last(), name)
    }
}

/// The table with one more speech of `words` words by `name`: that speaker's
/// entry updated, or a new entry at the end.
pub open spec fn record_speech(t: Seq<SpeakerEntry>, name: Seq<char>, words: nat) -> Seq<SpeakerEntry> {
    let k = speaker_index(t, name);
    if k >= 0 {
        t.update(k, (name, t[k].1 + 1, t[k].2 + words))
    } else {
        t.push((name, 1, words))
    }
}

/// One entry per speaker, in the order of their first speech, with the
/// number of their speeches and of the words in them.
pub open spec fn stats_table(es: Seq<SElement>) -> Seq<SpeakerEntry>
    decreases es.len(),
{
    if es.len() == 0 {
        Seq::empty()
    } else {
        let t = stats_table(es.drop_last());
        match es.last() {
            SElement::Dialogue { name, extensions, text } => record_speech(t, name, word_count(text)),
            _ => t,
        }
    }
}

/// Counts over a whole document.
pub struct Summary {
    pub dialogues: nat,
    pub dialogue_words: nat,
    pub actions: nat,
    pub action_words: nat,
    pub scenes: nat,
    pub interior: nat,
    pub exterior: nat,
}

/// The counts of dialogues, actions and scene headings in `es`, the words in
/// the dialogues and in the actions, and how many headings are `INT` and
/// how many `EXT`.
pub open spec fn summary(es: Seq<SElement>) -> Summary
    decreases es.len(),
{
    if es.len() == 0 {
        Summary { dialogues: 0, dialogue_words: 0, actions: 0, action_words: 0, scenes: 0, interior: 0, exterior: 0 }
    } else {
        let s = summary(es.drop_last());
        match es.last() {
            SElement::Dialogue { name, extensions, text } => Summary {
                dialogues: s.dialogues + 1,
                dialogue_words: s.dialogue_words + word_count(text),
                ..s
            },
            SElement::Action { is_centered, text } => Summary {
                actions: s.actions + 1,
                action_words: s.action_words + word_count(text),
                ..s
            },
            SElement::SceneHeading { int_or_ext, text } => Summary {
                scenes: s.scenes + 1,
                interior: s.interior + if int_or_ext == seq!['I', 'N', 'T'] { 1nat } else { 0nat },
                exterior: s.exterior + if int_or_ext == seq!['E', 'X', 'T'] { 1nat } else { 0nat },
                ..s
            },
            SElement::PageBreak => s,
        }
    }
}

/// Whether the word totals of `es` can be counted in a `usize`.
pub open spec fn totals_fit(es: Seq<SElement>) -> bool {
    summary(es).dialogue_words <= usize::MAX && summary(es).action_words <= usize::MAX
}

/// Counts over a prefix never exceed counts over the whole.
pub proof fn lemma_summary_monotone(es: Seq<SElement>, k: int)
    requires
        0 <= k <= es.len(),
    ensures
        summary(es.take(k)).dialogue_words <= summary(es).dialogue_words,
        summary(es.take(k)).action_words <= summary(es).action_words,
        summary(es.take(k)).dialogues <= k,
        summary(es.take(k)).actions <= k,
        summary(es.take(k)).scenes <= k,
        summary(es.take(k)).interior <= summary(es.take(k)).scenes,
        summary(es.take(k)).exterior <= summary(es.take(k)).scenes,
    decreases es.len(),
{
    if es.len() == 0 {
        assert(es.take(k) =~= es);
    } else if k == es.len() {
        assert(es.take(k) =~= es);
        lemma_summary_monotone(es.drop_last(), k - 1);
        assert(es.drop_last().take(k - 1) =~= es.drop_last());
    } else {
        lemma_summary_monotone(es.drop_last(), k);
        assert(es.drop_last().take(k) =~= es.take(k));
    }
}

/// Every entry of the table counts at most as many speeches as there are
/// elements, and at most as many words as all dialogues hold.
pub proof fn lemma_stats_bounds(es: Seq<SElement>)
    ensures
        forall|i: int|
            0 <= i < stats_table(es).len() ==> #[trigger] stats_table(es)[i].1 <= es.len()
                && stats_table(es)[i].2 <= summary(es).dialogue_words,
    decreases es.len(),
{
    if es.len() > 0 {
        lemma_stats_bounds(es.drop_last());
        let t = stats_table(es.drop_last());
        match es.last() {
            SElement::Dialogue { name, extensions, text } => {
                let k = speaker_index(t, name);
                lemma_speaker_index(t, name);
            },
            _ => {},
        }
    }
}

/// `speaker_index` finds an entry with the name, or there is none.
pub proof fn lemma_speaker_index(t: Seq<SpeakerEntry>, name: Seq<char>)
    ensures
        -1 <= speaker_index(t, name) < t.len(),
        speaker_index(t, name) >= 0 ==> t[speaker_index(t, name)].0 == name,
        speaker_index(t, name) == -1 ==> forall|i: int| 0 <= i < t.len() ==> #[trigger] t[i].0 != name,
    decreases t.len(),
{
    if t.len() > 0 && t.last().0 != name {
        lemma_speaker_index(t.drop_last(), name);
        if speaker_index(t, name) == -1 {
            assert forall|i: int| 0 <= i < t.len() implies #[trigger] t[i].0 != name by {
                if i < t.len() - 1 {
                    assert(t.drop_last()[i] == t[i]);
                }
            }
        }
    }
}

fn find_speaker(t: &Vec<(String, CharacterStats)>, name: &String) -> (r: Option<usize>)
    ensures
        match r {
            Some(k) => speaker_index(entries_view(t@), name@) == k as int,
            None => speaker_index(entries_view(t@), name@) == -1,
        },
{
    let ghost tv = entries_view(t@);
    let mut i = t.len();
    assert(tv.take(i as int) =~= tv);
    while i > 0
        invariant
            i <= t.len(),
            tv == entries_view(t@),
            speaker_index(tv, name@) == speaker_index(tv.take(i as int), name@),
        decreases i,
    {
        proof {
            assert(tv.take(i as int).drop_last() =~= tv.take(i - 1));
        }
        if t[i - 1].0 == *name {
            return Some(i - 1);
        }
        i = i - 1;
    }
    None
}

/// Each speaker's number of speeches and words, one entry per speaker in the
/// order of their first speech (see `stats_table`).
pub fn get_character_stats(document: &FarceDocument) -> (r: Vec<(String, CharacterStats)>)
    requires
        summary(document@.elements).dialogue_words <= usize::MAX,
    ensures
        entries_view(r@) == stats_table(document@.elements),
{
    let ghost es = document@.elements;
    let mut table: Vec<(String, CharacterStats)> = Vec::new();
    let mut k: usize = 0;
    assert(es.take(0) =~= Seq::<SElement>::empty());
    while k < document.elements.len()
        invariant
            k <= document.elements.len(),
            es == elements_view(document.elements@),
            summary(es).dialogue_words <= usize::MAX,
            entries_view(table@) == stats_table(es.take(k as int)),
        decreases document.elements.len() - k,
    {
        proof {
            let t = es.take(k + 1);
            assert(t.drop_last() =~= es.take(k as int));
            assert(t.last() == document.elements@[k as int]@);
            lemma_summary_monotone(es, k + 1);
            lemma_stats_bounds(t);
        }
        match &document.elements[k] {
            FarceElement::FDialogue(d) => {
                let words = d.get_num_words();
                let ghost tv = entries_view(table@);
                proof {
                    lemma_speaker_index(tv, d.character_name@);
                }
                match find_speaker(&table, &d.character_name) {
                    Some(i) => {
                        let cs = table[i].1;
                        let name = table[i].0.clone();
                        proof {
                            assert(stats_table(es.take(k + 1)) == record_speech(tv, d.character_name@, words as nat));
                            assert(stats_table(es.take(k + 1))[i as int].1 <= k + 1);
                        }
                        let updated = CharacterStats {
                            num_speeches: cs.num_speeches + 1,
                            num_words: cs.num_words + words,
                        };
                        table.set(i, (name, updated));
                        assert(entries_view(table@) =~= record_speech(tv, d.character_name@, words as nat));
                    },
                    None => {
                        table.push((d.character_name.clone(), CharacterStats { num_speeches: 1, num_words: words }));
                        assert(entries_view(table@) =~= record_speech(tv, d.character_name@, words as nat));
                    },
                }
            },
            _ => {},
        }
        k = k + 1;
    }
    assert(es.take(es.len() as int) =~= es);
    table
}

} // verus!

verus! {

/// The key by which speakers are ordered: their word count as an `i32`,
/// negated (so the most words come first).
pub open spec fn speaker_key(words: nat) -> int {
    let t = words as i32;
    if t == i32::MIN {
        t as int
    } else {
        -(t as int)
    }
}

pub open spec fn entry_key(e: SpeakerEntry) -> int {
    speaker_key(e.2)
}

/// `x` put into `sorted` after every entry whose key is not greater.
pub open spec fn insert_by_key(sorted: Seq<SpeakerEntry>, x: SpeakerEntry) -> Seq<SpeakerEntry>
    decreases sorted.len(),
{
    if sorted.len() == 0 {
        seq![x]
    } else if entry_key(sorted.last()) <= entry_key(x) {
        sorted.push(x)
    } else {
        insert_by_key(sorted.drop_last(), x).push(sorted.last())
    }
}

/// The entries ordered by key, entries with equal keys in the table's
/// order (a stable sort).
pub open spec fn sort_by_key(t: Seq<SpeakerEntry>) -> Seq<SpeakerEntry>
    decreases t.len(),
{
    if t.len() == 0 {
        Seq::empty()
    } else {
        insert_by_key(sort_by_key(t.drop_last()), t.last())
    }
}

proof fn lemma_insert_by_key_at(s: Seq<SpeakerEntry>, x: SpeakerEntry, p: int)
    requires
        0 <= p <= s.len(),
        forall|j: int| p <= j < s.len() ==> entry_key(#[trigger] s[j]) > entry_key(x),
        p == 0 || entry_key(s[p - 1]) <= entry_key(x),
    ensures
        insert_by_key(s, x) == s.insert(p, x),
    decreases s.len(),
{
    if s.len() == 0 {
        assert(s.insert(p, x) =~= seq![x]);
    } else if p == s.len() {
        assert(s.insert(p, x) =~= s.push(x));
    } else {
        assert(entry_key(s.last()) > entry_key(x));
        let d = s.drop_last();
        assert forall|j: int| p <= j < d.len() implies entry_key(#[trigger] d[j]) > entry_key(x) by {
            assert(d[j] == s[j]);
        }
        lemma_insert_by_key_at(d, x, p);
        assert(d.insert(p, x).push(s.last()) =~= s.insert(p, x));
    }
}

fn speaker_key_exec(words: usize) -> (k: i32)
    ensures
        k as int == speaker_key(words as nat),
{
    let t = words as i32;
    if t == i32::MIN {
        t
    } else {
        -t
    }
}

/// The speakers ordered by `speaker_key`, ties in table order (see
/// `sort_by_key`).
pub fn sorted_speakers(table: &Vec<(String, CharacterStats)>) -> (r: Vec<(String, CharacterStats)>)
    ensures
        entries_view(r@) == sort_by_key(entries_view(table@)),
        (forall|k: int| 0 <= k < table.len() ==> #[trigger] table@[k].1.num_words <= i32::MAX)
            ==> forall|i: int, j: int|
            0 <= i < j < r.len() ==> #[trigger] r@[i].1.num_words >= #[trigger] r@[j].1.num_words,
{
    let ghost tv = entries_view(table@);
    let mut sorted: Vec<(String, CharacterStats)> = Vec::new();
    let mut k: usize = 0;
    assert(tv.take(0) =~= Seq::<SpeakerEntry>::empty());
    while k < table.len()
        invariant
            k <= table.len(),
            tv == entries_view(table@),
            entries_view(sorted@) == sort_by_key(tv.take(k as int)),
        decreases table.len() - k,
    {
        let x = (table[k].0.clone(), table[k].1);
        let key = speaker_key_exec(x.1.num_words);
        let ghost sv = entries_view(sorted@);
        let ghost xv = (x.0@, x.1.num_speeches as nat, x.1.num_words as nat);
        let mut p = sorted.len();
        while p > 0 && speaker_key_exec(sorted[p - 1].1.num_words) > key
            invariant
                p <= sorted.len(),
                sv == entries_view(sorted@),
                key as int == entry_key(xv),
                forall|j: int| p <= j < sv.len() ==> entry_key(#[trigger] sv[j]) > entry_key(xv),
            decreases p,
        {
            p = p - 1;
        }
        proof {
            lemma_insert_by_key_at(sv, xv, p as int);
            let t = tv.take(k + 1);
            assert(t.drop_last() =~= tv.take(k as int));
            assert(t.last() == xv);
        }
        sorted.insert(p, x);
        assert(entries_view(sorted@) =~= sv.insert(p as int, xv));
        k = k + 1;
    }
    assert(tv.take(tv.len() as int) =~= tv);
    proof {
        if forall|k: int| 0 <= k < table.len() ==> #[trigger] table@[k].1.num_words <= i32::MAX {
            assert forall|k: int| 0 <= k < tv.len() implies #[trigger] tv[k].2 <= i32::MAX by {
                assert(tv[k].2 == table@[k].1.num_words);
            }
            lemma_sort_by_words(tv);
            let rv = entries_view(sorted@);
            assert forall|i: int, j: int| 0 <= i < j < sorted.len() implies #[trigger] sorted@[i].1.num_words
                >= #[trigger] sorted@[j].1.num_words by {
                assert(rv[i].2 == sorted@[i].1.num_words);
                assert(rv[j].2 == sorted@[j].1.num_words);
            }
        }
    }
    sorted
}

} // verus!

verus! {

/// Counts over a whole document (see `summary`).
#[derive(Debug, Copy, Clone)]
pub struct DocumentSummary {
    pub num_dialogues: usize,
    pub num_dialogue_words: usize,
    pub num_actions: usize,
    pub num_action_words: usize,
    pub num_scenes: usize,
    pub num_int_scenes: usize,
    pub num_ext_scenes: usize,
}

pub open spec fn summary_matches(d: DocumentSummary, s: Summary) -> bool {
    &&& d.num_dialogues == s.dialogues
    &&& d.num_dialogue_words == s.dialogue_words
    &&& d.num_actions == s.actions
    &&& d.num_action_words == s.action_words
    &&& d.num_scenes == s.scenes
    &&& d.num_int_scenes == s.interior
    &&& d.num_ext_scenes == s.exterior
}

/// Whether `s` spells `INT` (`want_int`) or `EXT`.
fn is_heading_kind(s: &String, want_int: bool) -> (r: bool)
    ensures
        r == (s@ == if want_int { seq!['I', 'N', 'T'] } else { seq!['E', 'X', 'T'] }),
{
    let v = crate::text::chars_of(s.as_str());
    let first = if want_int { 'I' } else { 'E' };
    let second = if want_int { 'N' } else { 'X' };
    let r = v.len() == 3 && v[0] == first && v[1] == second && v[2] == 'T';
    proof {
        let w = if want_int { seq!['I', 'N', 'T'] } else { seq!['E', 'X', 'T'] };
        if r {
            assert(v@ =~= w);
        }
        if v@ == w {
            assert(v@[0] == first && v@[1] == second && v@[2] == 'T');
        }
    }
    r
}

/// The counts of dialogues, actions and scenes of `document` (see
/// `summary`).
pub fn document_summary(document: &FarceDocument) -> (r: DocumentSummary)
    requires
        totals_fit(document@.elements),
    ensures
        summary_matches(r, summary(document@.elements)),
{
    let ghost es = document@.elements;
    let mut r = DocumentSummary {
        num_dialogues: 0,
        num_dialogue_words: 0,
        num_actions: 0,
        num_action_words: 0,
        num_scenes: 0,
        num_int_scenes: 0,
        num_ext_scenes: 0,
    };
    let mut k: usize = 0;
    assert(es.take(0) =~= Seq::<SElement>::empty());
    while k < document.elements.len()
        invariant
            k <= document.elements.len(),
            es == elements_view(document.elements@),
            totals_fit(es),
            summary_matches(r, summary(es.take(k as int))),
        decreases document.elements.len() - k,
    {
        proof {
            let t = es.take(k + 1);
            assert(t.drop_last() =~= es.take(k as int));
            assert(t.last() == document.elements@[k as int]@);
            lemma_summary_monotone(es, k + 1);
        }
        match &document.elements[k] {
            FarceElement::FDialogue(d) => {
                r.num_dialogues = r.num_dialogues + 1;
                r.num_dialogue_words = r.num_dialogue_words + d.get_num_words();
            },
            FarceElement::FAction(a) => {
                r.num_actions = r.num_actions + 1;
                r.num_action_words = r.num_action_words + a.get_num_words();
            },
            FarceElement::FSceneHeading(h) => {
                r.num_scenes = r.num_scenes + 1;
                if is_heading_kind(&h.int_or_ext, true) {
                    r.num_int_scenes = r.num_int_scenes + 1;
                }
                if is_heading_kind(&h.int_or_ext, false) {
                    r.num_ext_scenes = r.num_ext_scenes + 1;
                }
            },
            FarceElement::FPageBreak => {},
        }
        k = k + 1;
    }
    assert(es.take(es.len() as int) =~= es);
    r
}

/// Whether the word totals of `document` can be counted (see `totals_fit`).
pub fn word_totals_fit(document: &FarceDocument) -> (r: bool)
    ensures
        r == totals_fit(document@.elements),
{
    let ghost es = document@.elements;
    let mut dw: usize = 0;
    let mut aw: usize = 0;
    let mut k: usize = 0;
    assert(es.take(0) =~= Seq::<SElement>::empty());
    while k < document.elements.len()
        invariant
            k <= document.elements.len(),
            es == elements_view(document.elements@),
            dw == summary(es.take(k as int)).dialogue_words,
            aw == summary(es.take(k as int)).action_words,
        decreases document.elements.len() - k,
    {
        proof {
            let t = es.take(k + 1);
            assert(t.drop_last() =~= es.take(k as int));
            assert(t.last() == document.elements@[k as int]@);
            lemma_summary_monotone(es, k + 1);
        }
        match &document.elements[k] {
            FarceElement::FDialogue(d) => {
                match dw.checked_add(d.get_num_words()) {
                    Some(n) => dw = n,
                    None => {
                        proof {
                            lemma_summary_monotone(es, k + 1);
                        }
                        return false;
                    },
                }
            },
            FarceElement::FAction(a) => {
                match aw.checked_add(a.get_num_words()) {
                    Some(n) => aw = n,
                    None => {
                        proof {
                            lemma_summary_monotone(es, k + 1);
                        }
                        return false;
                    },
                }
            },
            _ => {},
        }
        k = k + 1;
    }
    assert(es.take(es.len() as int) =~= es);
    true
}

} // verus!

verus! {

/// `n` dashes.
pub open spec fn dashes(n: nat) -> Seq<char> {
    Seq::new(n, |i: int| '-')
}

/// The report lines for one speaker: the name underlined with as many dashes
/// as the name has bytes in UTF-8, the words, the speeches, a blank line.
pub open spec fn speaker_block(e: SpeakerEntry) -> Seq<Seq<char>> {
    seq![
        e.0,
        dashes(encode_utf8(e.0).len()),
        "Total words: "@ + decimal(e.2),
        "Dialogue sections: "@ + decimal(e.1),
        Seq::empty(),
    ]
}

pub open spec fn speaker_lines(sp: Seq<SpeakerEntry>) -> Seq<Seq<char>>
    decreases sp.len(),
{
    if sp.len() == 0 {
        Seq::empty()
    } else {
        speaker_lines(sp.drop_last()) + speaker_block(sp.last())
    }
}

/// How many speakers the report lists out of `n`.
pub open spec fn listed(n: nat) -> nat {
    if n > DEFAULT_NUM_SPEAKER_STATS {
        DEFAULT_NUM_SPEAKER_STATS as nat
    } else {
        n
    }
}

/// The lines of the statistics report: the counts of `summary`, then the
/// speakers with the most words (see `sort_by_key`), at most
/// `DEFAULT_NUM_SPEAKER_STATS` of them.
pub open spec fn report_lines(es: Seq<SElement>) -> Seq<Seq<char>> {
    let s = summary(es);
    let table = stats_table(es);
    let sorted = sort_by_key(table);
    seq![
        Seq::empty(),
        "=== STATS (not 100% trustworthy) ==="@,
        Seq::empty(),
        decimal(table.len()) + " distinct character names"@,
        decimal(s.dialogues) + " dialogue sections"@,
        decimal(s.dialogue_words) + " words of dialogue"@,
        decimal(s.actions) + " actions"@,
        decimal(s.action_words) + " words of action"@,
        decimal(s.scenes) + " Scenes"@,
        decimal(s.interior) + " interior scenes"@,
        decimal(s.exterior) + " exterior scenes"@,
        Seq::empty(),
    ] + (if sorted.len() > DEFAULT_NUM_SPEAKER_STATS {
        seq!["Top "@ + decimal(DEFAULT_NUM_SPEAKER_STATS as nat) + " characters"@, "================"@]
    } else {
        seq!["Characters"@, "=========="@]
    }) + speaker_lines(sorted.take(listed(sorted.len()) as int)) + seq![Seq::<char>::empty()]
}

fn line_with_number(n: usize, tail: &str) -> (r: String)
    ensures
        r@ == decimal(n as nat) + tail@,
{
    let mut s = decimal_string(n);
    s.append(tail);
    s
}

fn line_after_label(label: &str, n: usize) -> (r: String)
    ensures
        r@ == label@ + decimal(n as nat),
{
    let mut s = String::from_str(label);
    push_decimal(&mut s, n);
    s
}

fn dash_line(n: usize) -> (r: String)
    ensures
        r@ == dashes(n as nat),
{
    let mut s = String::new();
    let mut i: usize = 0;
    while i < n
        invariant
            i <= n,
            s@ == dashes(i as nat),
        decreases n - i,
    {
        push_char(&mut s, '-');
        i = i + 1;
        assert(s@ =~= dashes(i as nat));
    }
    s
}

/// The statistics report of `document`, line by line (see `report_lines`).
pub fn stats_report(document: &FarceDocument) -> (r: Vec<String>)
    requires
        totals_fit(document@.elements),
    ensures
        strings_view(r@) == report_lines(document@.elements),
{
    let ghost es = document@.elements;
    let table = get_character_stats(document);
    let sum = document_summary(document);
    let sorted = sorted_speakers(&table);
    let mut lines: Vec<String> = Vec::new();
    lines.push(String::new());
    lines.push(String::from_str("=== STATS (not 100% trustworthy) ==="));
    lines.push(String::new());
    lines.push(line_with_number(table.len(), " distinct character names"));
    lines.push(line_with_number(sum.num_dialogues, " dialogue sections"));
    lines.push(line_with_number(sum.num_dialogue_words, " words of dialogue"));
    lines.push(line_with_number(sum.num_actions, " actions"));
    lines.push(line_with_number(sum.num_action_words, " words of action"));
    lines.push(line_with_number(sum.num_scenes, " Scenes"));
    lines.push(line_with_number(sum.num_int_scenes, " interior scenes"));
    lines.push(line_with_number(sum.num_ext_scenes, " exterior scenes"));
    lines.push(String::new());
    if sorted.len() > DEFAULT_NUM_SPEAKER_STATS {
        let mut top = String::from_str("Top ");
        push_decimal(&mut top, DEFAULT_NUM_SPEAKER_STATS);
        top.append(" characters");
        lines.push(top);
        lines.push(String::from_str("================"));
    } else {
        lines.push(String::from_str("Characters"));
        lines.push(String::from_str("=========="));
    }
    let ghost head = strings_view(lines@);
    let ghost sv = entries_view(sorted@);
    let count = if sorted.len() > DEFAULT_NUM_SPEAKER_STATS {
        DEFAULT_NUM_SPEAKER_STATS
    } else {
        sorted.len()
    };
    let mut i: usize = 0;
    assert(sv.take(0) =~= Seq::<SpeakerEntry>::empty());
    assert(strings_view(lines@) =~= head + speaker_lines(sv.take(0)));
    while i < count
        invariant
            i <= count <= sorted.len(),
            sv == entries_view(sorted@),
            strings_view(lines@) == head + speaker_lines(sv.take(i as int)),
        decreases count - i,
    {
        let name = &sorted[i].0;
        let cs = sorted[i].1;
        let ghost before = strings_view(lines@);
        lines.push(name.clone());
        let bytes = name.as_str().as_bytes();
        lines.push(dash_line(bytes.len()));
        lines.push(line_after_label("Total words: ", cs.num_words));
        lines.push(line_after_label("Dialogue sections: ", cs.num_speeches));
        lines.push(String::new());
        proof {
            let t = sv.take(i + 1);
            assert(t.drop_last() =~= sv.take(i as int));
            assert(t.last() == sv[i as int]);
            assert(strings_view(lines@) =~= before + speaker_block(sv[i as int]));
        }
        i = i + 1;
    }
    let ghost mid = strings_view(lines@);
    lines.push(String::new());
    proof {
        assert(table@.len() == stats_table(es).len());
        assert(sv.len() == sort_by_key(stats_table(es)).len());
        assert(count == listed(sv.len()));
        assert(strings_view(lines@) =~= mid + seq![Seq::<char>::empty()]);
    }
    assert(strings_view(lines@) =~= report_lines(es));
    lines
}

} // verus!

verus! {

/// The number of dialogues in `es` spoken by `name`.
pub open spec fn speeches_by(es: Seq<SElement>, name: Seq<char>) -> nat
    decreases es.len(),
{
    if es.len() == 0 {
        0
    } else {
        speeches_by(es.drop_last(), name) + match es.last() {
            SElement::Dialogue { name: n, extensions, text } => if n == name {
                1nat
            } else {
                0nat
            },
            _ => 0nat,
        }
    }
}

/// The number of words in the dialogues in `es` spoken by `name`.
pub open spec fn words_by(es: Seq<SElement>, name: Seq<char>) -> nat
    decreases es.len(),
{
    if es.len() == 0 {
        0
    } else {
        words_by(es.drop_last(), name) + match es.last() {
            SElement::Dialogue { name: n, extensions, text } => if n == name {
                word_count(text)
            } else {
                0nat
            },
            _ => 0nat,
        }
    }
}

/// The speeches counted over all entries.
pub open spec fn total_speeches(t: Seq<SpeakerEntry>) -> nat
    decreases t.len(),
{
    if t.len() == 0 {
        0
    } else {
        total_speeches(t.drop_last()) + t.last().1
    }
}

/// The words counted over all entries.
pub open spec fn total_words(t: Seq<SpeakerEntry>) -> nat
    decreases t.len(),
{
    if t.len() == 0 {
        0
    } else {
        total_words(t.drop_last()) + t.last().2
    }
}

proof fn lemma_totals_update(t: Seq<SpeakerEntry>, k: int, e: SpeakerEntry)
    requires
        0 <= k < t.len(),
    ensures
        total_speeches(t.update(k, e)) + t[k].1 == total_speeches(t) + e.1,
        total_words(t.update(k, e)) + t[k].2 == total_words(t) + e.2,
    decreases t.len(),
{
    let u = t.update(k, e);
    if k == t.len() - 1 {
        assert(u.drop_last() =~= t.drop_last());
    } else {
        lemma_totals_update(t.drop_last(), k, e);
        assert(u.drop_last() =~= t.drop_last().update(k, e));
    }
}

/// Speaker statistics are exact: the table names each speaker once, every
/// entry holds that speaker's number of speeches and of words, every
/// speaker has an entry, and over all entries the speeches and words add up
/// to the document's dialogues and dialogue words.
pub proof fn lemma_stats_table_exact(es: Seq<SElement>)
    ensures
        forall|i: int, j: int|
            0 <= i < j < stats_table(es).len() ==> #[trigger] stats_table(es)[i].0
                != #[trigger] stats_table(es)[j].0,
        forall|i: int|
            0 <= i < stats_table(es).len() ==> #[trigger] stats_table(es)[i].1 == speeches_by(
                es,
                stats_table(es)[i].0,
            ) && stats_table(es)[i].2 == words_by(es, stats_table(es)[i].0) && stats_table(
                es,
            )[i].1 > 0,
        forall|name: Seq<char>|
            #[trigger] speeches_by(es, name) > 0 ==> speaker_index(stats_table(es), name) >= 0,
        total_speeches(stats_table(es)) == summary(es).dialogues,
        total_words(stats_table(es)) == summary(es).dialogue_words,
    decreases es.len(),
{
    if es.len() > 0 {
        let d = es.drop_last();
        lemma_stats_table_exact(d);
        let t0 = stats_table(d);
        match es.last() {
            SElement::Dialogue { name, extensions, text } => {
                let w = word_count(text);
                lemma_speaker_index(t0, name);
                let k = speaker_index(t0, name);
                let t = stats_table(es);
                assert(t == record_speech(t0, name, w));
                if k >= 0 {
                    lemma_totals_update(t0, k, (name, t0[k].1 + 1, t0[k].2 + w));
                    assert forall|i: int|
                        0 <= i < t.len() implies #[trigger] t[i].1 == speeches_by(es, t[i].0)
                            && t[i].2 == words_by(es, t[i].0) && t[i].1 > 0 by {
                        if i != k {
                            assert(t[i] == t0[i]);
                        }
                    }
                    assert forall|n: Seq<char>| #[trigger] speeches_by(es, n) > 0 implies speaker_index(t, n) >= 0 by {
                        lemma_speaker_index(t, n);
                        if speaker_index(t, n) < 0 {
                            if n == name {
                                assert(t[k].0 == n);
                            } else {
                                assert(speeches_by(d, n) > 0);
                                lemma_speaker_index(t0, n);
                                let j = speaker_index(t0, n);
                                assert(t[j].0 == t0[j].0);
                            }
                        }
                    }
                } else {
                    assert(speeches_by(d, name) == 0);
                    lemma_no_speeches_no_words(d, name);
                    assert(t.drop_last() =~= t0);
                    assert forall|i: int, j: int|
                        0 <= i < j < t.len() implies #[trigger] t[i].0 != #[trigger] t[j].0 by {
                        if j == t.len() - 1 {
                            assert(t0[i].0 != name);
                        } else {
                            assert(t[i] == t0[i] && t[j] == t0[j]);
                        }
                    }
                    assert forall|i: int|
                        0 <= i < t.len() implies #[trigger] t[i].1 == speeches_by(es, t[i].0)
                            && t[i].2 == words_by(es, t[i].0) && t[i].1 > 0 by {
                        if i < t.len() - 1 {
                            assert(t[i] == t0[i]);
                            assert(t0[i].0 != name);
                        }
                    }
                    assert forall|n: Seq<char>| #[trigger] speeches_by(es, n) > 0 implies speaker_index(t, n) >= 0 by {
                        lemma_speaker_index(t, n);
                        if n != name {
                            assert(speeches_by(d, n) > 0);
                            lemma_speaker_index(t0, n);
                            let j = speaker_index(t0, n);
                            assert(t[j].0 == t0[j].0);
                        }
                    }
                }
            },
            _ => {
                assert forall|n: Seq<char>| #[trigger] speeches_by(es, n) > 0 implies speaker_index(
                    stats_table(es),
                    n,
                ) >= 0 by {
                    assert(speeches_by(d, n) > 0);
                }
                assert forall|i: int|
                    0 <= i < stats_table(es).len() implies #[trigger] stats_table(es)[i].1
                        == speeches_by(es, stats_table(es)[i].0) && stats_table(es)[i].2 == words_by(
                        es,
                        stats_table(es)[i].0,
                    ) && stats_table(es)[i].1 > 0 by {
                    assert(stats_table(es)[i] == t0[i]);
                }
            },
        }
    }
}

proof fn lemma_no_speeches_no_words(es: Seq<SElement>, name: Seq<char>)
    requires
        speeches_by(es, name) == 0,
    ensures
        words_by(es, name) == 0,
    decreases es.len(),
{
    if es.len() > 0 {
        lemma_no_speeches_no_words(es.drop_last(), name);
    }
}

} // verus!

verus! {

/// Keys never decrease along `t`.
pub open spec fn sorted_by_key(t: Seq<SpeakerEntry>) -> bool {
    forall|i: int, j: int| 0 <= i < j < t.len() ==> entry_key(#[trigger] t[i]) <= entry_key(#[trigger] t[j])
}

proof fn lemma_insert_bound(s: Seq<SpeakerEntry>, x: SpeakerEntry, b: int)
    requires
        forall|i: int| 0 <= i < s.len() ==> entry_key(#[trigger] s[i]) <= b,
        entry_key(x) <= b,
    ensures
        forall|i: int| 0 <= i < insert_by_key(s, x).len() ==> entry_key(#[trigger] insert_by_key(s, x)[i]) <= b,
    decreases s.len(),
{
    if s.len() > 0 && entry_key(s.last()) > entry_key(x) {
        let d = s.drop_last();
        assert forall|i: int| 0 <= i < d.len() implies entry_key(#[trigger] d[i]) <= b by {
            assert(d[i] == s[i]);
        }
        lemma_insert_bound(d, x, b);
        let r = insert_by_key(d, x);
        assert forall|i: int| 0 <= i < insert_by_key(s, x).len() implies entry_key(#[trigger] insert_by_key(s, x)[i]) <= b by {
            if i < r.len() {
                assert(insert_by_key(s, x)[i] == r[i]);
            }
        }
    }
}

proof fn lemma_insert_sorted(s: Seq<SpeakerEntry>, x: SpeakerEntry)
    requires
        sorted_by_key(s),
    ensures
        sorted_by_key(insert_by_key(s, x)),
        insert_by_key(s, x).to_multiset() == s.to_multiset().insert(x),
        insert_by_key(s, x).len() == s.len() + 1,
    decreases s.len(),
{
    broadcast use vstd::seq_lib::group_to_multiset_ensures;
    if s.len() == 0 {
        assert(seq![x] =~= s.push(x));
    } else if entry_key(s.last()) <= entry_key(x) {
        let r = s.push(x);
        assert forall|i: int, j: int| 0 <= i < j < r.len() implies entry_key(#[trigger] r[i]) <= entry_key(#[trigger] r[j]) by {
            if j == r.len() - 1 {
                if i < s.len() - 1 {
                    assert(entry_key(s[i]) <= entry_key(s[s.len() - 1]));
                }
            }
        }
    } else {
        let d = s.drop_last();
        let l = s.last();
        assert forall|i: int, j: int| 0 <= i < j < d.len() implies entry_key(#[trigger] d[i]) <= entry_key(#[trigger] d[j]) by {
            assert(d[i] == s[i] && d[j] == s[j]);
        }
        lemma_insert_sorted(d, x);
        assert forall|i: int| 0 <= i < d.len() implies entry_key(#[trigger] d[i]) <= entry_key(l) by {
            assert(d[i] == s[i]);
        }
        lemma_insert_bound(d, x, entry_key(l));
        let r0 = insert_by_key(d, x);
        let r = r0.push(l);
        assert forall|i: int, j: int| 0 <= i < j < r.len() implies entry_key(#[trigger] r[i]) <= entry_key(#[trigger] r[j]) by {
            if j < r0.len() {
                assert(r[i] == r0[i] && r[j] == r0[j]);
            } else {
                assert(r[i] == r0[i]);
            }
        }
        assert(s =~= d.push(l));
        assert(r.to_multiset() =~= s.to_multiset().insert(x));
    }
}

/// Sorting the speakers keeps every entry, once, and orders them by key.
pub proof fn lemma_sort_by_key(t: Seq<SpeakerEntry>)
    ensures
        sorted_by_key(sort_by_key(t)),
        sort_by_key(t).to_multiset() == t.to_multiset(),
        sort_by_key(t).len() == t.len(),
    decreases t.len(),
{
    broadcast use vstd::seq_lib::group_to_multiset_ensures;
    if t.len() > 0 {
        lemma_sort_by_key(t.drop_last());
        lemma_insert_sorted(sort_by_key(t.drop_last()), t.last());
        assert(t =~= t.drop_last().push(t.last()));
    } else {
        assert(t.to_multiset() =~= vstd::multiset::Multiset::empty());
        assert(sort_by_key(t).to_multiset() =~= vstd::multiset::Multiset::empty());
    }
}

/// With word counts that fit an `i32`, sorting the speakers puts the most
/// words first: word counts never increase along the result, and every
/// speaker is kept.
pub proof fn lemma_sort_by_words(t: Seq<SpeakerEntry>)
    requires
        forall|k: int| 0 <= k < t.len() ==> #[trigger] t[k].2 <= i32::MAX,
    ensures
        forall|i: int, j: int|
            0 <= i < j < sort_by_key(t).len() ==> #[trigger] sort_by_key(t)[i].2 >= #[trigger] sort_by_key(
                t,
            )[j].2,
        sort_by_key(t).to_multiset() == t.to_multiset(),
{
    broadcast use vstd::seq_lib::group_to_multiset_ensures;
    lemma_sort_by_key(t);
    let r = sort_by_key(t);
    assert forall|i: int| 0 <= i < r.len() implies #[trigger] r[i].2 <= i32::MAX by {
        assert(r.contains(r[i]));
        assert(r.to_multiset().count(r[i]) > 0);
        assert(t.contains(r[i]));
        let k = choose|k: int| 0 <= k < t.len() && t[k] == r[i];
        assert(t[k].2 <= i32::MAX);
    }
    assert forall|i: int, j: int| 0 <= i < j < r.len() implies #[trigger] r[i].2 >= #[trigger] r[j].2 by {
        lemma_speaker_key_small(r[i].2);
        lemma_speaker_key_small(r[j].2);
        assert(entry_key(r[i]) <= entry_key(r[j]));
    }
}

/// For a word count that fits an `i32`, the key is the count negated.
proof fn lemma_speaker_key_small(w: nat)
    requires
        w <= i32::MAX,
    ensures
        speaker_key(w) == -(w as int),
{
    assert((w as i32) as int == w as int);
}

} // verus!

