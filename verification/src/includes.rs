//! Expansion of include directives. Reading the files is the caller's part: the expansion says
//! which files its text includes, is handed their contents in that order, and puts them in
//! place, for at most `MAX_INCLUDE_ROUNDS` rounds so that a file that includes itself still
//! comes to an end.
use vstd::prelude::*;
use crate::tags::{include_tag, include_tag_at, lemma_include_tag};
use crate::text::{extend_all, from_chars, slice_chars, to_chars};

verus! {

/// The number of rounds after which includes are no longer expanded.
pub const MAX_INCLUDE_ROUNDS: usize = 10;

/// The file names of the include directives of `t` from position `i` on, in order, taking
/// directives left to right without overlap.
pub open spec fn include_names(t: Seq<char>, i: nat) -> Seq<Seq<char>>
    decreases t.len() - i,
{
    if i >= t.len() {
        Seq::empty()
    } else {
        match include_tag(t, i) {
            Some((lo, hi, e)) => {
                proof {
                    lemma_include_tag(t, i);
                }
                seq![t.subrange(lo as int, hi as int)] + include_names(t, e)
            },
            None => include_names(t, i + 1),
        }
    }
}

/// `t` from position `i` on with each include directive replaced, in order, by the next of
/// `files`.
pub open spec fn include_pass(t: Seq<char>, i: nat, files: Seq<Seq<char>>) -> Seq<char>
    decreases t.len() - i,
{
    if i >= t.len() {
        Seq::empty()
    } else {
        match include_tag(t, i) {
            Some((lo, hi, e)) => {
                proof {
                    lemma_include_tag(t, i);
                }
                files[0] + include_pass(t, e, files.drop_first())
            },
            None => seq![t[i as int]] + include_pass(t, i + 1, files),
        }
    }
}

/// The texts of a list of strings.
pub open spec fn texts(v: Seq<String>) -> Seq<Seq<char>> {
    v.map_values(|s: String| s@)
}

/// What stands in place of an include directive: the file's content, or a comment with the
/// error that reading it gave.
pub open spec fn replacement_text(read: Result<String, String>) -> Seq<char> {
    match read {
        Ok(c) => c@,
        Err(e) => "<!-- Include error: "@ + e@ + " -->"@,
    }
}

/// What stands in place of an include directive, given the outcome of reading the file.
pub fn include_replacement(read: Result<String, String>) -> (r: String)
    ensures
        r@ == replacement_text(read),
{
    match read {
        Ok(c) => c,
        Err(e) => {
            let mut out = to_chars("<!-- Include error: ");
            extend_all(&mut out, &to_chars(e.as_str()));
            extend_all(&mut out, &to_chars(" -->"));
            from_chars(&out, 0, out.len())
        },
    }
}

/// A template text part way through the expansion of its includes.
pub struct IncludeExpansion {
    text: Vec<char>,
    rounds: usize,
}

impl IncludeExpansion {
    /// The text so far.
    pub closed spec fn text(&self) -> Seq<char> {
        self.text@
    }

    /// The rounds of expansion done so far.
    pub closed spec fn rounds(&self) -> nat {
        self.rounds as nat
    }

    /// Whether expansion has ended: the round limit is reached or no directive is left.
    pub open spec fn is_done(&self) -> bool {
        self.rounds() >= MAX_INCLUDE_ROUNDS || include_names(self.text(), 0).len() == 0
    }

    /// Starts the expansion of `content`.
    pub fn new(content: &str) -> (r: Self)
        ensures
            r.text() == content@,
            r.rounds() == 0,
    {
        IncludeExpansion { text: to_chars(content), rounds: 0 }
    }

    /// The number of rounds done.
    pub fn rounds_done(&self) -> (r: usize)
        ensures
            r == self.rounds(),
    {
        self.rounds
    }

    /// The text so far.
    pub fn content(&self) -> (r: String)
        ensures
            r@ == self.text(),
    {
        from_chars(&self.text, 0, self.text.len())
    }

    /// The files to read for the next round, in order; `None` once expansion has ended.
    pub fn pending_includes(&self) -> (r: Option<Vec<String>>)
        ensures
            r is None <==> self.is_done(),
            r matches Some(v) ==> texts(v@) == include_names(self.text(), 0),
    {
        if self.rounds >= MAX_INCLUDE_ROUNDS {
            return None;
        }
        let t = &self.text;
        let mut names: Vec<String> = Vec::new();
        let mut i: usize = 0;
        while i < t.len()
            invariant
                i <= t@.len(),
                include_names(t@, 0) == texts(names@) + include_names(t@, i as nat),
            decreases t.len() - i,
        {
            match include_tag_at(t, i) {
                Some((lo, hi, e)) => {
                    proof {
                        lemma_include_tag(t@, i as nat);
                    }
                    let ghost before = names@;
                    let name = from_chars(t, lo, hi);
                    names.push(name);
                    assert(texts(names@) =~= texts(before) + seq![t@.subrange(lo as int, hi as int)]);
                    assert(include_names(t@, 0) =~= texts(names@) + include_names(t@, e as nat));
                    i = e;
                },
                None => {
                    i += 1;
                },
            }
        }
        assert(include_names(t@, 0) =~= texts(names@));
        if names.len() == 0 {
            None
        } else {
            Some(names)
        }
    }

    /// Puts `contents` in place of the directives, in order, ending one round.
    pub fn resolve(&mut self, contents: Vec<String>)
        requires
            !old(self).is_done(),
            contents@.len() == include_names(old(self).text(), 0).len(),
        ensures
            final(self).text() == include_pass(old(self).text(), 0, texts(contents@)),
            final(self).rounds() == old(self).rounds() + 1,
            final(self).rounds() <= MAX_INCLUDE_ROUNDS,
    {
        let ghost files = texts(contents@);
        let t = slice_chars(&self.text, 0, self.text.len());
        assert(t@ =~= self.text@);
        let mut out: Vec<char> = Vec::new();
        let mut i: usize = 0;
        let mut k: usize = 0;
        let count = contents.len();
        assert(files.skip(0) =~= files);
        assert(include_pass(t@, 0, files) =~= out@ + include_pass(t@, 0, files.skip(0)));
        while i < t.len()
            invariant
                i <= t@.len(),
                files == texts(contents@),
                count == contents@.len(),
                files.len() == count,
                k + include_names(t@, i as nat).len() == files.len(),
                include_pass(t@, 0, files) == out@ + include_pass(
                    t@,
                    i as nat,
                    files.skip(k as int),
                ),
            decreases t.len() - i,
        {
            match include_tag_at(&t, i) {
                Some((lo, hi, e)) => {
                    proof {
                        lemma_include_tag(t@, i as nat);
                    }
                    let ghost before = out@;
                    assert(include_names(t@, i as nat) == seq![t@.subrange(lo as int, hi as int)]
                        + include_names(t@, e as nat));
                    assert(k < count);
                    extend_all(&mut out, &to_chars(contents[k].as_str()));
                    assert(files.skip(k as int)[0] == contents@[k as int]@);
                    assert(files.skip(k as int).drop_first() =~= files.skip(k + 1));
                    assert(include_pass(t@, 0, files) =~= out@ + include_pass(
                        t@,
                        e as nat,
                        files.skip(k + 1),
                    ));
                    k += 1;
                    i = e;
                },
                None => {
                    let ghost before = out@;
                    out.push(t[i]);
                    assert(include_pass(t@, 0, files) =~= out@ + include_pass(
                        t@,
                        (i + 1) as nat,
                        files.skip(k as int),
                    ));
                    i += 1;
                },
            }
        }
        assert(include_pass(t@, 0, files) =~= out@);
        self.text = out;
        self.rounds = self.rounds + 1;
    }
}

} // verus!
