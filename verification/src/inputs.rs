//! Labeled input sets, and the decision of how a set argument is read.
//!
//! Reading from disk belongs to the calling front end; this module holds the
//! data shape that the front end fills (a named set of labeled byte buffers),
//! the classification rule that turns a command-line argument into a set
//! specification, and the row/column labels a formatted matrix carries.

use vstd::prelude::*;
use vstd::string::{StrSliceExecFns, StringSliceAdditionalSpecFns};

verus! {

/// One labeled input buffer.
#[derive(Debug, Clone)]
pub struct InputItem {
    pub label: String,
    pub bytes: Vec<u8>,
}

/// A named, ordered set of input buffers.
#[derive(Debug, Clone)]
pub struct InputSet {
    pub name: String,
    pub items: Vec<InputItem>,
}

/// Where an input set comes from.
#[derive(Debug, Clone)]
pub enum SetSpec {
    /// Every regular file in a directory, in file-name order.
    Dir { path: String },
    /// A single file.
    File { path: String },
    /// A newline-separated list of file paths.
    List { path: String },
    /// The argument text itself as one buffer.
    Literal { text: String, label: Option<String> },
}

/// Decide how a set argument is to be read.  `list` forces a list file;
/// otherwise an existing directory is read as a directory, an existing file
/// as a file, and anything else is taken literally.  The caller supplies
/// what it saw on disk (`is_dir`, `is_file`); the rule itself owns no I/O.
pub fn classify_set_spec(arg: &str, list: bool, is_dir: bool, is_file: bool) -> (r: SetSpec)
    ensures
        list ==> (r matches SetSpec::List { path } && path@ == arg@),
        !list && is_dir ==> (r matches SetSpec::Dir { path } && path@ == arg@),
        !list && !is_dir && is_file ==> (r matches SetSpec::File { path } && path@ == arg@),
        !list && !is_dir && !is_file ==> (r matches SetSpec::Literal { text, label }
            && text@ == arg@ && label is None),
{
    if list {
        SetSpec::List { path: arg.to_owned() }
    } else if is_dir {
        SetSpec::Dir { path: arg.to_owned() }
    } else if is_file {
        SetSpec::File { path: arg.to_owned() }
    } else {
        SetSpec::Literal { text: arg.to_owned(), label: Option::None }
    }
}

/// The lines of a text, as the standard line splitter yields them: the
/// pieces between newlines, any trailing carriage return removed.
pub uninterp spec fn lines_of(s: Seq<char>) -> Seq<Seq<char>>;

/// A text with its leading and trailing whitespace removed.
pub uninterp spec fn trimmed_of(s: Seq<char>) -> Seq<char>;

/// Relies on str::lines: the line split depends on the characters alone.
#[verifier::external_body]
fn split_lines(s: &str) -> (r: Vec<String>)
    ensures
        r@.len() == lines_of(s@).len(),
        forall|i: int| 0 <= i < r@.len() ==> (#[trigger] r@[i])@ == lines_of(s@)[i],
{
    s.lines().map(|line| line.to_owned()).collect()
}

/// Relies on str::trim: the trimmed text depends on the characters alone.
pub assume_specification<'a>[ str::trim ](s: &'a str) -> (r: &'a str)
    ensures
        r@ == trimmed_of(s@),
;

/// A list line names a path: trimmed, it is non-empty and not a `#` comment.
pub open spec fn keeps_line(l: Seq<char>) -> bool {
    trimmed_of(l).len() > 0 && trimmed_of(l)[0] != '#'
}

/// The kept lines, trimmed, in order.
pub open spec fn kept_trimmed(lines: Seq<Seq<char>>) -> Seq<Seq<char>> {
    lines.filter(|l: Seq<char>| keeps_line(l)).map_values(|l: Seq<char>| trimmed_of(l))
}

/// The paths a list file names.
pub open spec fn list_paths_of(s: Seq<char>) -> Seq<Seq<char>> {
    kept_trimmed(lines_of(s))
}

/// Extract the paths a list file names: one per line, trimmed, with blank
/// lines and `#` comments skipped.
pub fn list_file_paths(raw: &str) -> (r: Vec<String>)
    ensures
        r@.len() == list_paths_of(raw@).len(),
        forall|i: int| 0 <= i < r@.len() ==> (#[trigger] r@[i])@ == list_paths_of(raw@)[i],
{
    broadcast use Seq::lemma_filter_push;
    broadcast use Seq::lemma_push_map_commute;

    let lines = split_lines(raw);
    let ghost ls = lines_of(raw@);
    let mut out: Vec<String> = Vec::new();
    let n = lines.len();
    let mut i: usize = 0;
    proof {
        assert(ls.take(0) =~= Seq::<Seq<char>>::empty());
        assert(kept_trimmed(Seq::<Seq<char>>::empty()) =~= Seq::<Seq<char>>::empty());
    }
    while i < n
        invariant
            0 <= i <= n,
            ls == lines_of(raw@),
            n == ls.len(),
            lines@.len() == n,
            forall|p: int| 0 <= p < n ==> (#[trigger] lines@[p])@ == ls[p],
            out@.len() == kept_trimmed(ls.take(i as int)).len(),
            forall|j: int|
                0 <= j < out@.len() ==> (#[trigger] out@[j])@ == kept_trimmed(ls.take(i as int))[j],
        decreases n - i,
    {
        broadcast use Seq::lemma_filter_push;
        broadcast use Seq::lemma_push_map_commute;

        let t = lines[i].as_str().trim();
        let keep = if t.is_empty() {
            false
        } else {
            t.get_char(0) != '#'
        };
        proof {
            assert(t@ == trimmed_of(ls[i as int]));
            assert(keep == keeps_line(ls[i as int]));
            assert(ls.take(i as int + 1) =~= ls.take(i as int).push(ls[i as int]));
        }
        if keep {
            out.push(t.to_owned());
        }
        i = i + 1;
    }
    proof {
        assert(ls.take(n as int) =~= ls);
    }
    out
}

/// Build the one-buffer set for a literal argument: the text's bytes, under
/// the given label or "literal" when none was given.
pub fn literal_input_set(text: &str, label: Option<String>) -> (r: InputSet)
    ensures
        r.items@.len() == 1,
        r.items@[0].bytes@ == text.spec_bytes(),
        label matches Some(l) ==> r.name@ == l@ && r.items@[0].label@ == l@,
        label is None ==> r.name@ == "literal"@ && r.items@[0].label@ == "literal"@,
{
    let lbl = match label {
        Some(l) => l,
        Option::None => "literal".to_owned(),
    };
    let bytes = vstd::slice::slice_to_vec(text.as_bytes());
    InputSet { name: lbl.clone(), items: vec![InputItem { label: lbl, bytes }] }
}

/// The row labels of `a` and column labels of `b`, in order.
pub fn rows_cols(a: &InputSet, b: &InputSet) -> (r: (Vec<String>, Vec<String>))
    ensures
        r.0@.len() == a.items@.len(),
        r.1@.len() == b.items@.len(),
        forall|i: int| 0 <= i < a.items@.len() ==> (#[trigger] r.0@[i])@ == a.items@[i].label@,
        forall|j: int| 0 <= j < b.items@.len() ==> (#[trigger] r.1@[j])@ == b.items@[j].label@,
{
    let mut rows: Vec<String> = Vec::new();
    let na = a.items.len();
    let mut i: usize = 0;
    while i < na
        invariant
            0 <= i <= na,
            na == a.items@.len(),
            rows@.len() == i,
            forall|p: int| 0 <= p < i ==> (#[trigger] rows@[p])@ == a.items@[p].label@,
        decreases na - i,
    {
        rows.push(a.items[i].label.clone());
        i = i + 1;
    }
    let mut cols: Vec<String> = Vec::new();
    let nb = b.items.len();
    let mut j: usize = 0;
    while j < nb
        invariant
            0 <= j <= nb,
            nb == b.items@.len(),
            cols@.len() == j,
            forall|q: int| 0 <= q < j ==> (#[trigger] cols@[q])@ == b.items@[q].label@,
        decreases nb - j,
    {
        cols.push(b.items[j].label.clone());
        j = j + 1;
    }
    (rows, cols)
}

} // verus!
