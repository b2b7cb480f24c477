//! Model discovery: classify the entries of a model directory by file-name
//! extension and pick one acoustic-model file and at most one scorer file.
//!
//! The scan is a fold over the entries in the order they are handed in: the
//! last matching candidate wins each slot. Directory enumeration order is
//! platform-dependent, so with several candidates the winner is whichever
//! the enumeration yielded last; with a single candidate the result does not
//! depend on the order at all (see the lemmas at the end).

use vstd::prelude::*;

verus! {

/// One directory entry as seen by the locator: the entry's file name (the
/// final path component alone) and whether it is a regular file.
pub struct DirEntry {
    pub name: String,
    pub is_file: bool,
}

/// The chosen acoustic-model file name and, if one was found, the chosen
/// scorer file name.
pub struct ModelSelection {
    pub model: String,
    pub scorer: Option<String>,
}

/// The index of the last `.` that can begin an extension (any position but
/// the first character), or `0` when there is none.
pub open spec fn last_dot(name: Seq<char>) -> int
    decreases name.len(),
{
    if name.len() <= 1 {
        0
    } else if name[name.len() - 1] == '.' {
        name.len() - 1
    } else {
        last_dot(name.drop_last())
    }
}

/// The extension of a file name: what follows the last `.`, except that a
/// name without a `.`, or whose only `.` leads the name, has none.
pub open spec fn extension_of(name: Seq<char>) -> Option<Seq<char>> {
    if last_dot(name) >= 1 {
        Some(name.subrange(last_dot(name) + 1, name.len() as int))
    } else {
        None
    }
}

/// Does the name carry one of the acoustic-model extensions?
pub open spec fn is_model_name(name: Seq<char>) -> bool {
    match extension_of(name) {
        Some(e) => e == "pb"@ || e == "pbmm"@ || e == "tflite"@,
        None => false,
    }
}

/// Does the name carry the scorer extension?
pub open spec fn is_scorer_name(name: Seq<char>) -> bool {
    extension_of(name) == Some("scorer"@)
}

/// Is this entry an acoustic-model candidate?
pub open spec fn selects_model(e: DirEntry) -> bool {
    e.is_file && is_model_name(e.name@)
}

/// Is this entry a scorer candidate?
pub open spec fn selects_scorer(e: DirEntry) -> bool {
    e.is_file && is_scorer_name(e.name@)
}

/// The model slot after folding over the entries: the last candidate wins.
pub open spec fn scan_model(entries: Seq<DirEntry>) -> Option<Seq<char>>
    decreases entries.len(),
{
    if entries.len() == 0 {
        None
    } else if selects_model(entries.last()) {
        Some(entries.last().name@)
    } else {
        scan_model(entries.drop_last())
    }
}

/// The scorer slot after folding over the entries: the last candidate wins.
pub open spec fn scan_scorer(entries: Seq<DirEntry>) -> Option<Seq<char>>
    decreases entries.len(),
{
    if entries.len() == 0 {
        None
    } else if selects_scorer(entries.last()) {
        Some(entries.last().name@)
    } else {
        scan_scorer(entries.drop_last())
    }
}

proof fn lemma_last_dot_found(name: Seq<char>, d: int)
    requires
        1 <= d < name.len(),
        name[d] == '.',
        forall|m: int| d < m < name.len() ==> name[m] != '.',
    ensures
        last_dot(name) == d,
    decreases name.len(),
{
    if name.len() - 1 > d {
        lemma_last_dot_found(name.drop_last(), d);
    }
}

proof fn lemma_last_dot_none(name: Seq<char>)
    requires
        forall|m: int| 1 <= m < name.len() ==> name[m] != '.',
    ensures
        last_dot(name) == 0,
    decreases name.len(),
{
    if name.len() > 1 {
        lemma_last_dot_none(name.drop_last());
    }
}

/// Character-wise string comparison, so that equality of the views is what
/// the result reports.
fn str_eq(a: &str, b: &str) -> (r: bool)
    ensures
        r == (a@ == b@),
{
    let la: usize = a.unicode_len();
    let lb: usize = b.unicode_len();
    if la != lb {
        return false;
    }
    let mut i: usize = 0;
    while i < la
        invariant
            i <= la,
            la == a@.len(),
            lb == b@.len(),
            la == lb,
            forall|k: int| 0 <= k < i ==> a@[k] == b@[k],
        decreases la - i,
    {
        if a.get_char(i) != b.get_char(i) {
            return false;
        }
        i = i + 1;
    }
    proof {
        assert(a@ =~= b@);
    }
    true
}

/// Where the extension begins: the index of the last `.` that is not the
/// leading character, if any.
fn extension_index(name: &str) -> (r: Option<usize>)
    ensures
        (r matches Some(d) ==> 1 <= d < name@.len() && last_dot(name@) == d),
        (r is None ==> last_dot(name@) == 0),
{
    let n: usize = name.unicode_len();
    let mut k: usize = n;
    while k > 1
        invariant
            k <= n,
            n == name@.len(),
            forall|m: int| k <= m < n ==> name@[m] != '.',
        decreases k,
    {
        let c: char = name.get_char(k - 1);
        if c == '.' {
            proof {
                lemma_last_dot_found(name@, k - 1);
            }
            return Some(k - 1);
        }
        k = k - 1;
    }
    proof {
        lemma_last_dot_none(name@);
    }
    None
}

/// Does the file name carry an acoustic-model extension (`pb`, `pbmm` or
/// `tflite`)?
pub fn has_model_extension(name: &str) -> (r: bool)
    ensures
        r == is_model_name(name@),
{
    match extension_index(name) {
        None => false,
        Some(d) => {
            let n: usize = name.unicode_len();
            let ext: &str = name.substring_char(d + 1, n);
            str_eq(ext, "pb") || str_eq(ext, "pbmm") || str_eq(ext, "tflite")
        }
    }
}

/// Does the file name carry the scorer extension?
pub fn has_scorer_extension(name: &str) -> (r: bool)
    ensures
        r == is_scorer_name(name@),
{
    match extension_index(name) {
        None => false,
        Some(d) => {
            let n: usize = name.unicode_len();
            let ext: &str = name.substring_char(d + 1, n);
            str_eq(ext, "scorer")
        }
    }
}

/// No extension is both a model extension and the scorer extension.
proof fn lemma_model_scorer_disjoint(name: Seq<char>)
    ensures
        !(is_model_name(name) && is_scorer_name(name)),
{
    reveal_strlit("pb");
    reveal_strlit("pbmm");
    reveal_strlit("tflite");
    reveal_strlit("scorer");
    assert("pb"@.len() == 2 && "pbmm"@.len() == 4 && "scorer"@.len() == 6);
    assert("tflite"@[0] == 't' && "scorer"@[0] == 's');
}

spec fn model_slot_view(o: Option<String>) -> Option<Seq<char>> {
    match o {
        Some(s) => Some(s@),
        None => None,
    }
}

/// Fold over the directory entries: regular files with a model extension
/// fill the model slot, those with the scorer extension the scorer slot,
/// the last match winning each. With no model candidate, the conventional
/// file name `output_graph.pb` is returned even though no such entry was
/// seen; loading it will then fail downstream.
pub fn locate_models(entries: &Vec<DirEntry>) -> (r: ModelSelection)
    ensures
        (scan_model(entries@) matches Some(n) ==> r.model@ == n),
        (scan_model(entries@) is None ==> r.model@ == "output_graph.pb"@),
        (scan_scorer(entries@) matches Some(n) ==> (r.scorer matches Some(s) && s@ == n)),
        (scan_scorer(entries@) is None ==> r.scorer is None),
{
    let mut model: Option<String> = None;
    let mut scorer: Option<String> = None;
    let mut i: usize = 0;
    while i < entries.len()
        invariant
            i <= entries@.len(),
            model_slot_view(model) == scan_model(entries@.take(i as int)),
            model_slot_view(scorer) == scan_scorer(entries@.take(i as int)),
        decreases entries@.len() - i,
    {
        let e: &DirEntry = &entries[i];
        if e.is_file {
            if has_model_extension(e.name.as_str()) {
                model = Some(e.name.clone());
            } else if has_scorer_extension(e.name.as_str()) {
                scorer = Some(e.name.clone());
            }
        }
        proof {
            lemma_model_scorer_disjoint(e.name@);
            assert(entries@.take(i + 1).drop_last() =~= entries@.take(i as int));
            assert(entries@.take(i + 1).last() == entries@[i as int]);
        }
        i = i + 1;
    }
    proof {
        assert(entries@.take(entries@.len() as int) =~= entries@);
    }
    let model_name: String = match model {
        Some(m) => m,
        None => "output_graph.pb".to_owned(),
    };
    ModelSelection { model: model_name, scorer }
}

/// Law: when exactly one entry is an acoustic-model candidate, the scan
/// selects it, wherever it stands in the enumeration.
pub proof fn lemma_unique_model_selected(entries: Seq<DirEntry>, i: int)
    requires
        0 <= i < entries.len(),
        selects_model(entries[i]),
        forall|k: int| 0 <= k < entries.len() && k != i ==> !selects_model(entries[k]),
    ensures
        scan_model(entries) == Some(entries[i].name@),
    decreases entries.len(),
{
    if i < entries.len() - 1 {
        lemma_unique_model_selected(entries.drop_last(), i);
    }
}

/// Law: when exactly one entry is a scorer candidate, the scan selects it,
/// wherever it stands in the enumeration.
pub proof fn lemma_unique_scorer_selected(entries: Seq<DirEntry>, j: int)
    requires
        0 <= j < entries.len(),
        selects_scorer(entries[j]),
        forall|k: int| 0 <= k < entries.len() && k != j ==> !selects_scorer(entries[k]),
    ensures
        scan_scorer(entries) == Some(entries[j].name@),
    decreases entries.len(),
{
    if j < entries.len() - 1 {
        lemma_unique_scorer_selected(entries.drop_last(), j);
    }
}

/// Law: a directory with exactly one acoustic-model file and exactly one
/// scorer file yields that pair, regardless of enumeration order.
pub proof fn lemma_unique_pair_selected(entries: Seq<DirEntry>, i: int, j: int)
    requires
        0 <= i < entries.len(),
        0 <= j < entries.len(),
        selects_model(entries[i]),
        forall|k: int| 0 <= k < entries.len() && k != i ==> !selects_model(entries[k]),
        selects_scorer(entries[j]),
        forall|k: int| 0 <= k < entries.len() && k != j ==> !selects_scorer(entries[k]),
    ensures
        scan_model(entries) == Some(entries[i].name@),
        scan_scorer(entries) == Some(entries[j].name@),
{
    lemma_unique_model_selected(entries, i);
    lemma_unique_scorer_selected(entries, j);
}

/// Law: with at least one acoustic-model candidate, the scan's choice is one
/// of the candidates — which one is not promised, as enumeration order is
/// platform-dependent.
pub proof fn lemma_selection_among_candidates(entries: Seq<DirEntry>)
    requires
        exists|k: int| 0 <= k < entries.len() && selects_model(entries[k]),
    ensures
        exists|k: int|
            0 <= k < entries.len() && selects_model(entries[k])
                && scan_model(entries) == Some(entries[k].name@),
    decreases entries.len(),
{
    let last = entries.len() - 1;
    if selects_model(entries[last]) {
        assert(0 <= last < entries.len() && selects_model(entries[last])
            && scan_model(entries) == Some(entries[last].name@));
    } else {
        let w = choose|k: int| 0 <= k < entries.len() && selects_model(entries[k]);
        assert(0 <= w < entries.drop_last().len() && selects_model(entries.drop_last()[w]));
        lemma_selection_among_candidates(entries.drop_last());
        let w2 = choose|k: int|
            0 <= k < entries.drop_last().len() && selects_model(entries.drop_last()[k])
                && scan_model(entries.drop_last()) == Some(entries.drop_last()[k].name@);
        assert(0 <= w2 < entries.len() && selects_model(entries[w2])
            && scan_model(entries) == Some(entries[w2].name@));
    }
}

/// Law: with no acoustic-model candidate at all, the scan leaves the model
/// slot empty, and `locate_models` falls back to `output_graph.pb`.
pub proof fn lemma_no_candidate_scans_none(entries: Seq<DirEntry>)
    requires
        forall|k: int| 0 <= k < entries.len() ==> !selects_model(entries[k]),
    ensures
        scan_model(entries) is None,
    decreases entries.len(),
{
    if entries.len() > 0 {
        lemma_no_candidate_scans_none(entries.drop_last());
    }
}

} // verus!
