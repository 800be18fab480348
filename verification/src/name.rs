//! Directory names: the canonical name of a project's directory, made from the
//! phase number and the project name that the database holds.

use vstd::prelude::*;
use crate::text::chars_of;

verus! {

/// What `char::is_alphanumeric` returns for `c`: whether Unicode lists the
/// character as alphabetic or as a number.
pub uninterp spec fn unicode_alphanumeric(c: char) -> bool;

/// Calls `char::is_alphanumeric`. Nothing is claimed of its result but that it is
/// the same for the same character.
#[verifier::external_body]
fn is_alphanumeric(c: char) -> (b: bool)
    ensures
        b == unicode_alphanumeric(c),
{
    c.is_alphanumeric()
}

/// Whether `c` is an ASCII character.
pub open spec fn is_ascii_char(c: char) -> bool {
    c as u32 <= 0x7f
}

/// Whether `c` is an ASCII letter, an ASCII digit or `_`.
pub open spec fn is_ascii_word_char(c: char) -> bool {
    ||| 'a' <= c <= 'z'
    ||| 'A' <= c <= 'Z'
    ||| '0' <= c <= '9'
    ||| c == '_'
}

/// Whether `c` is a word character: a letter, a digit or `_`. Among the ASCII
/// characters these are `a-z`, `A-Z`, `0-9` and `_`; beyond ASCII, what Unicode
/// calls alphanumeric.
pub open spec fn is_word_char(c: char) -> bool {
    if is_ascii_char(c) {
        is_ascii_word_char(c)
    } else {
        unicode_alphanumeric(c)
    }
}

/// Whether `c` separates the components of a path.
pub open spec fn is_separator(c: char) -> bool {
    c == '/' || c == '\\'
}

/// Whether every character of `s` is a word character.
pub open spec fn is_word_text(s: Seq<char>) -> bool {
    forall|i: int| 0 <= i < s.len() ==> is_word_char(#[trigger] s[i])
}

/// Whether `s` holds no path separator.
pub open spec fn has_no_separator(s: Seq<char>) -> bool {
    forall|i: int| 0 <= i < s.len() ==> !is_separator(#[trigger] s[i])
}

/// Whether `name` can be the name of a directory: it is not empty, holds no path
/// separator, and is neither `.` nor `..`.
pub open spec fn is_directory_name(name: Seq<char>) -> bool {
    &&& name.len() > 0
    &&& has_no_separator(name)
    &&& name != seq!['.']
    &&& name != seq!['.', '.']
}

/// `s` with every `-` replaced by `_`.
pub open spec fn dashes_replaced(s: Seq<char>) -> Seq<char> {
    Seq::new(
        s.len(),
        |i: int|
            if s[i] == '-' {
                '_'
            } else {
                s[i]
            },
    )
}

/// `s` with every maximal run of characters that are no word characters replaced
/// by a single `_`: the first character of a run becomes `_`, the others of the
/// run vanish, and the word characters stay as they are.
pub open spec fn runs_collapsed(s: Seq<char>) -> Seq<char>
    decreases s.len(),
{
    if s.len() == 0 {
        Seq::empty()
    } else {
        let before = runs_collapsed(s.drop_last());
        if is_word_char(s.last()) {
            before.push(s.last())
        } else if s.len() >= 2 && !is_word_char(s[s.len() - 2]) {
            before
        } else {
            before.push('_')
        }
    }
}

/// For each character of `s`, whether it is a word character.
pub open spec fn word_marks(s: Seq<char>) -> Seq<bool> {
    Seq::new(s.len(), |i: int| is_word_char(s[i]))
}

/// Whether `marks` marks position `i`. A position without a mark is not marked.
pub open spec fn is_marked(marks: Seq<bool>, i: int) -> bool {
    0 <= i < marks.len() && marks[i]
}

/// `s` with every maximal run of characters that `marks` does not mark replaced by
/// a single `_`; the marked characters stay as they are.
pub open spec fn unmarked_runs_collapsed(s: Seq<char>, marks: Seq<bool>) -> Seq<char>
    decreases s.len(),
{
    if s.len() == 0 {
        Seq::empty()
    } else {
        let before = unmarked_runs_collapsed(s.drop_last(), marks);
        if is_marked(marks, s.len() - 1) {
            before.push(s.last())
        } else if s.len() >= 2 && !is_marked(marks, s.len() - 2) {
            before
        } else {
            before.push('_')
        }
    }
}

/// Collapsing the runs that are not marked, with the word characters marked, is
/// collapsing the runs of characters that are no word characters.
pub proof fn lemma_collapse_by_word_marks(s: Seq<char>, marks: Seq<bool>)
    requires
        s.len() <= marks.len(),
        forall|i: int| 0 <= i < s.len() ==> marks[i] == is_word_char(#[trigger] s[i]),
    ensures
        unmarked_runs_collapsed(s, marks) == runs_collapsed(s),
    decreases s.len(),
{
    if s.len() > 0 {
        let init = s.drop_last();
        assert forall|i: int| 0 <= i < init.len() implies marks[i] == is_word_char(
            #[trigger] init[i],
        ) by {
            assert(init[i] == s[i]);
        }
        lemma_collapse_by_word_marks(init, marks);
        assert(marks[s.len() - 1] == is_word_char(s[s.len() - 1]));
        if s.len() >= 2 {
            assert(marks[s.len() - 2] == is_word_char(s[s.len() - 2]));
        }
    }
}

/// The directory name of a project: the phase number with its dashes replaced,
/// a `_`, and the project name with its runs collapsed.
pub open spec fn normalized_name(phase_number: Seq<char>, project_name: Seq<char>) -> Seq<char> {
    dashes_replaced(phase_number) + seq!['_'] + runs_collapsed(project_name)
}

/// Whether `c` is a word character.
pub fn word_char(c: char) -> (b: bool)
    ensures
        b == is_word_char(c),
{
    if c as u32 <= 0x7f {
        ('a' <= c && c <= 'z') || ('A' <= c && c <= 'Z') || ('0' <= c && c <= '9') || c == '_'
    } else {
        is_alphanumeric(c)
    }
}

/// Replaces every `-` of `s` by `_`.
pub fn replace_dashes(s: &str) -> (out: String)
    ensures
        out@ == dashes_replaced(s@),
{
    let chars = chars_of(s);
    let mut out = String::new();
    let mut i: usize = 0;
    while i < chars.len()
        invariant
            chars@ == s@,
            i <= chars.len(),
            out@ == dashes_replaced(s@).take(i as int),
        decreases chars.len() - i,
    {
        let c = chars[i];
        if c == '-' {
            out.push('_');
        } else {
            out.push(c);
        }
        i = i + 1;
        assert(dashes_replaced(s@).take(i as int) == dashes_replaced(s@).take(i - 1).push(
            dashes_replaced(s@)[i - 1],
        ));
    }
    assert(dashes_replaced(s@).take(chars.len() as int) == dashes_replaced(s@));
    out
}

/// For each character of `chars`, whether it is a word character.
pub fn mark_word_chars(chars: &Vec<char>) -> (marks: Vec<bool>)
    ensures
        marks@ == word_marks(chars@),
{
    let mut marks: Vec<bool> = Vec::new();
    let mut i: usize = 0;
    while i < chars.len()
        invariant
            i <= chars.len(),
            marks@ == word_marks(chars@).take(i as int),
        decreases chars.len() - i,
    {
        marks.push(word_char(chars[i]));
        i = i + 1;
        assert(word_marks(chars@).take(i as int) == word_marks(chars@).take(i - 1).push(
            word_marks(chars@)[i - 1],
        ));
    }
    assert(word_marks(chars@).take(chars.len() as int) == word_marks(chars@));
    marks
}

/// Replaces every run of characters of `chars` that `marks` does not mark by a
/// single `_`, and keeps the marked characters. `marks[i]` belongs to `chars[i]`;
/// a character without a mark counts as not marked.
pub fn collapse_unmarked(chars: &Vec<char>, marks: &Vec<bool>) -> (out: String)
    ensures
        out@ == unmarked_runs_collapsed(chars@, marks@),
{
    let mut out = String::new();
    let mut in_run = false;
    let mut i: usize = 0;
    assert(chars@.take(0) =~= Seq::<char>::empty());
    while i < chars.len()
        invariant
            i <= chars.len(),
            out@ == unmarked_runs_collapsed(chars@.take(i as int), marks@),
            in_run == (i > 0 && !is_marked(marks@, i - 1)),
        decreases chars.len() - i,
    {
        assert(chars@.take(i + 1).drop_last() == chars@.take(i as int));
        if i < marks.len() && marks[i] {
            out.push(chars[i]);
            in_run = false;
        } else {
            if !in_run {
                out.push('_');
            }
            in_run = true;
        }
        i = i + 1;
    }
    assert(chars@.take(chars.len() as int) == chars@);
    out
}

/// Replaces every run of characters of `s` that are no word characters by a
/// single `_`.
pub fn collapse_runs(s: &str) -> (out: String)
    ensures
        out@ == runs_collapsed(s@),
{
    let chars = chars_of(s);
    let marks = mark_word_chars(&chars);
    proof {
        lemma_collapse_by_word_marks(s@, marks@);
    }
    collapse_unmarked(&chars, &marks)
}

/// The canonical directory name of the project with the given phase number and
/// project name. The result depends on the two texts alone.
pub fn normalize(phase_number: &str, project_name: &str) -> (name: String)
    ensures
        name@ == normalized_name(phase_number@, project_name@),
{
    let mut name = replace_dashes(phase_number);
    name.push('_');
    let rest = collapse_runs(project_name);
    name.append(rest.as_str());
    name
}

/// A collapsed text holds word characters only.
pub proof fn lemma_collapsed_is_word_text(s: Seq<char>)
    ensures
        is_word_text(runs_collapsed(s)),
    decreases s.len(),
{
    if s.len() > 0 {
        lemma_collapsed_is_word_text(s.drop_last());
    }
}

/// A collapsed text is no longer than the text it was made from.
pub proof fn lemma_collapsed_is_no_longer(s: Seq<char>)
    ensures
        runs_collapsed(s).len() <= s.len(),
    decreases s.len(),
{
    if s.len() > 0 {
        lemma_collapsed_is_no_longer(s.drop_last());
    }
}

/// A text of word characters stays as it is.
pub proof fn lemma_collapse_keeps_word_text(s: Seq<char>)
    requires
        is_word_text(s),
    ensures
        runs_collapsed(s) == s,
    decreases s.len(),
{
    if s.len() > 0 {
        let init = s.drop_last();
        assert forall|i: int| 0 <= i < init.len() implies is_word_char(#[trigger] init[i]) by {
            assert(init[i] == s[i]);
        }
        lemma_collapse_keeps_word_text(init);
        assert(init.push(s.last()) =~= s);
    }
}

/// Collapsing twice gives what collapsing once gives.
pub proof fn lemma_collapse_is_idempotent(s: Seq<char>)
    ensures
        runs_collapsed(runs_collapsed(s)) == runs_collapsed(s),
{
    lemma_collapsed_is_word_text(s);
    lemma_collapse_keeps_word_text(runs_collapsed(s));
}

/// Where the phase number holds no path separator, the name of the project's
/// directory is a directory name, whatever the project name holds.
pub proof fn lemma_normalized_name_is_directory_name(
    phase_number: Seq<char>,
    project_name: Seq<char>,
)
    requires
        has_no_separator(phase_number),
    ensures
        is_directory_name(normalized_name(phase_number, project_name)),
{
    let name = normalized_name(phase_number, project_name);
    let phase = dashes_replaced(phase_number);
    let rest = runs_collapsed(project_name);
    lemma_collapsed_is_word_text(project_name);
    assert(name[phase.len() as int] == '_');
    assert(name != seq!['.']) by {
        if name.len() == 1 {
            assert(seq!['.'][phase.len() as int] == '.');
        }
    }
    assert(name != seq!['.', '.']) by {
        if name.len() == 2 {
            assert(seq!['.', '.'][phase.len() as int] == '.');
        }
    }
    assert forall|i: int| 0 <= i < name.len() implies !is_separator(#[trigger] name[i]) by {
        if i < phase.len() {
            assert(name[i] == phase[i]);
            assert(!is_separator(phase_number[i]));
        } else if i > phase.len() {
            assert(name[i] == rest[i - phase.len() - 1]);
            assert(is_word_char(rest[i - phase.len() - 1]));
        }
    }
}

} // verus!
