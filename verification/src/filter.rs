//! Filters: what a comma-separated specification means, and which file
//! names a filter matches.

use crate::path::{extension, extension_start, file_name, name_start, path_extension};
use crate::text::{
    ascii_lower, chars_of, collect, collect_lower, lemma_ascii_lower_idempotent,
    lemma_last_index_is, split, to_lower, trim, trim_bounds,
};
use vstd::hash_set::StringHashSet;
use vstd::prelude::*;

verus! {

/// What a filter holds: lower-case extensions, exact file names, and
/// whether files without an extension match.
pub struct FilterView {
    pub exts: Set<Seq<char>>,
    pub names: Set<Seq<char>>,
    pub noext: bool,
}

/// The token that stands for "files without an extension".
pub open spec fn noext_marker() -> Seq<char> {
    seq!['n', 'o', 'e', 'x', 't']
}

/// Whether `t` is the no-extension marker, in any letter case.
pub open spec fn is_marker(t: Seq<char>) -> bool {
    ascii_lower(t) == noext_marker()
}

/// Whether `t` starts with a period.
pub open spec fn is_dotted(t: Seq<char>) -> bool {
    t.len() > 0 && t[0] == '.'
}

/// Whether `t` is a bare token: not empty, not the marker, no leading period.
pub open spec fn is_bare(t: Seq<char>) -> bool {
    t.len() > 0 && t[0] != '.' && !is_marker(t)
}

/// Whether `t` names an extension: every token but the empty one and the
/// marker does.
pub open spec fn names_extension(t: Seq<char>) -> bool {
    t.len() > 0 && !is_marker(t)
}

/// The extension that `t` names: `t` without its leading period if it has
/// one, in lower case.
pub open spec fn extension_entry(t: Seq<char>) -> Seq<char> {
    if is_dotted(t) {
        ascii_lower(t.skip(1))
    } else {
        ascii_lower(t)
    }
}

/// Each piece trimmed.
pub open spec fn trim_all(pieces: Seq<Seq<char>>) -> Seq<Seq<char>> {
    Seq::new(pieces.len(), |i: int| trim(pieces[i]))
}

/// The tokens of a specification: its comma-separated pieces, trimmed.
/// Empty tokens are among them; they mean nothing.
pub open spec fn tokens(spec: Seq<char>) -> Seq<Seq<char>> {
    trim_all(split(spec, ','))
}

/// The filter that a sequence of tokens describes.
pub open spec fn filter_of_tokens(toks: Seq<Seq<char>>) -> FilterView {
    FilterView {
        exts: Set::new(
            |e: Seq<char>|
                exists|i: int|
                    0 <= i < toks.len() && names_extension(#[trigger] toks[i]) && extension_entry(
                        toks[i],
                    ) == e,
        ),
        names: Set::new(
            |n: Seq<char>| exists|i: int| 0 <= i < toks.len() && is_bare(#[trigger] toks[i]) && toks[i] == n,
        ),
        noext: exists|i: int| 0 <= i < toks.len() && is_marker(#[trigger] toks[i]),
    }
}

/// The filter that a specification describes.
pub open spec fn filter_of(spec: Seq<char>) -> FilterView {
    filter_of_tokens(tokens(spec))
}

/// `v` after one more token.
pub open spec fn absorb(v: FilterView, t: Seq<char>) -> FilterView {
    if t.len() == 0 {
        v
    } else if is_marker(t) {
        FilterView { exts: v.exts, names: v.names, noext: true }
    } else if t[0] == '.' {
        FilterView { exts: v.exts.insert(ascii_lower(t.skip(1))), names: v.names, noext: v.noext }
    } else {
        FilterView { exts: v.exts.insert(ascii_lower(t)), names: v.names.insert(t), noext: v.noext }
    }
}

impl FilterView {
    /// The filter that matches nothing.
    pub open spec fn empty() -> FilterView {
        FilterView { exts: Set::empty(), names: Set::empty(), noext: false }
    }

    /// Every extension held is in lower case.
    pub open spec fn wf(self) -> bool {
        forall|e: Seq<char>| self.exts.contains(e) ==> ascii_lower(e) == e
    }

    /// Whether the filter matches a file of the given name: by its
    /// extension in any letter case, by its exact name, or by having no
    /// extension.
    pub open spec fn matches_name(self, name: Seq<char>) -> bool {
        ||| extension(name) matches Some(e) && self.exts.contains(ascii_lower(e))
        ||| self.names.contains(name)
        ||| self.noext && extension(name) is None
    }

    /// Whether the filter matches the file that `path` names.
    pub open spec fn matches(self, path: Seq<char>) -> bool {
        self.matches_name(file_name(path))
    }
}

/// No token gives the empty filter.
pub proof fn lemma_filter_of_no_tokens()
    ensures
        filter_of_tokens(Seq::empty()) == FilterView::empty(),
{
    let v = filter_of_tokens(Seq::empty());
    assert(v.exts =~= Set::empty());
    assert(v.names =~= Set::empty());
}

/// One more token changes the filter as `absorb` says.
pub proof fn lemma_filter_push(toks: Seq<Seq<char>>, t: Seq<char>)
    ensures
        filter_of_tokens(toks.push(t)) == absorb(filter_of_tokens(toks), t),
{
    let more = toks.push(t);
    let last = toks.len() as int;
    let v = filter_of_tokens(toks);
    let w = filter_of_tokens(more);
    let a = absorb(v, t);
    assert(more[last] == t);
    assert forall|i: int| 0 <= i < toks.len() implies more[i] == toks[i] by {}
    assert forall|e: Seq<char>| w.exts.contains(e) <==> a.exts.contains(e) by {
        if w.exts.contains(e) {
            let i = choose|i: int|
                0 <= i < more.len() && names_extension(#[trigger] more[i]) && extension_entry(
                    more[i],
                ) == e;
            if i < last {
                assert(names_extension(toks[i]) && extension_entry(toks[i]) == e);
            }
        }
        if a.exts.contains(e) {
            if v.exts.contains(e) {
                let i = choose|i: int|
                    0 <= i < toks.len() && names_extension(#[trigger] toks[i]) && extension_entry(
                        toks[i],
                    ) == e;
                assert(names_extension(more[i]) && extension_entry(more[i]) == e);
            } else {
                assert(names_extension(more[last]) && extension_entry(more[last]) == e);
            }
        }
    }
    assert forall|n: Seq<char>| w.names.contains(n) <==> a.names.contains(n) by {
        if w.names.contains(n) {
            let i = choose|i: int| 0 <= i < more.len() && is_bare(#[trigger] more[i]) && more[i] == n;
            if i < last {
                assert(is_bare(toks[i]) && toks[i] == n);
            }
        }
        if a.names.contains(n) {
            if v.names.contains(n) {
                let i = choose|i: int| 0 <= i < toks.len() && is_bare(#[trigger] toks[i]) && toks[i] == n;
                assert(is_bare(more[i]) && more[i] == n);
            } else {
                assert(is_bare(more[last]) && more[last] == n);
            }
        }
    }
    assert(w.noext <==> a.noext) by {
        assert(is_marker(t) ==> t.len() == 5) by {
            assert(ascii_lower(t).len() == t.len());
            assert(noext_marker().len() == 5);
        }
        if w.noext {
            let i = choose|i: int| 0 <= i < more.len() && is_marker(#[trigger] more[i]);
            if i < last {
                assert(is_marker(toks[i]));
            }
        }
        if a.noext {
            if v.noext {
                let i = choose|i: int| 0 <= i < toks.len() && is_marker(#[trigger] toks[i]);
                assert(is_marker(more[i]));
            } else {
                assert(is_marker(more[last]));
            }
        }
    }
    assert(w.exts =~= a.exts);
    assert(w.names =~= a.names);
}

/// A filter made from a specification holds its extensions in lower case.
pub proof fn lemma_filter_of_wf(spec: Seq<char>)
    ensures
        filter_of(spec).wf(),
{
    let toks = tokens(spec);
    let v = filter_of(spec);
    assert forall|e: Seq<char>| v.exts.contains(e) implies ascii_lower(e) == e by {
        let i = choose|i: int|
            0 <= i < toks.len() && names_extension(#[trigger] toks[i]) && extension_entry(toks[i])
                == e;
        lemma_ascii_lower_idempotent(toks[i]);
        lemma_ascii_lower_idempotent(toks[i].skip(1));
    }
}

/// The marker is five characters long and starts with a letter.
proof fn lemma_marker_shape(t: Seq<char>)
    requires
        is_marker(t),
    ensures
        t.len() == 5,
        t[0] != '.',
{
    assert(ascii_lower(t).len() == t.len());
    assert(noext_marker().len() == 5);
    assert(ascii_lower(t)[0] == noext_marker()[0]);
}

/// A token with a leading period puts what follows the period, in lower
/// case, among the extensions; every file whose extension is that, in
/// whatever letter case, then matches.
pub proof fn lemma_dotted_token(spec: Seq<char>, t: Seq<char>)
    requires
        tokens(spec).contains(t),
        is_dotted(t),
    ensures
        filter_of(spec).exts.contains(ascii_lower(t.skip(1))),
        forall|path: Seq<char>|
            #![trigger filter_of(spec).matches(path)]
            (path_extension(path) matches Some(e) && ascii_lower(e) == ascii_lower(t.skip(1)))
                ==> filter_of(spec).matches(path),
{
    let toks = tokens(spec);
    let i = choose|i: int| 0 <= i < toks.len() && toks[i] == t;
    if is_marker(t) {
        lemma_marker_shape(t);
    }
    assert(names_extension(toks[i]) && extension_entry(toks[i]) == ascii_lower(t.skip(1)));
}

/// A bare token puts itself, in lower case, among the extensions and, as
/// it is, among the exact names; a file then matches by its extension in
/// whatever letter case, and by its exact name.
pub proof fn lemma_bare_token(spec: Seq<char>, t: Seq<char>)
    requires
        tokens(spec).contains(t),
        is_bare(t),
    ensures
        filter_of(spec).exts.contains(ascii_lower(t)),
        filter_of(spec).names.contains(t),
        forall|path: Seq<char>|
            #![trigger filter_of(spec).matches(path)]
            (path_extension(path) matches Some(e) && ascii_lower(e) == ascii_lower(t))
                ==> filter_of(spec).matches(path),
        forall|path: Seq<char>|
            #![trigger filter_of(spec).matches(path)]
            file_name(path) == t ==> filter_of(spec).matches(path),
{
    let toks = tokens(spec);
    let i = choose|i: int| 0 <= i < toks.len() && toks[i] == t;
    assert(names_extension(toks[i]) && extension_entry(toks[i]) == ascii_lower(t));
    assert(is_bare(toks[i]) && toks[i] == t);
}

/// The marker, in any letter case, lets every file without an extension
/// match, whatever its name.
pub proof fn lemma_marker_token(spec: Seq<char>, t: Seq<char>)
    requires
        tokens(spec).contains(t),
        is_marker(t),
    ensures
        filter_of(spec).noext,
        forall|path: Seq<char>|
            #![trigger filter_of(spec).matches(path)]
            path_extension(path) is None ==> filter_of(spec).matches(path),
{
    let toks = tokens(spec);
    let i = choose|i: int| 0 <= i < toks.len() && toks[i] == t;
    assert(is_marker(toks[i]));
}

/// A file with an extension matches only by that extension or by its
/// name; one without matches only by its name or through the marker.
pub proof fn lemma_match_branches(v: FilterView, name: Seq<char>)
    ensures
        extension(name) is Some ==> (v.matches_name(name) <==> v.exts.contains(
            ascii_lower(extension(name)->0),
        ) || v.names.contains(name)),
        extension(name) is None ==> (v.matches_name(name) <==> v.noext || v.names.contains(name)),
{
}

/// A filter: a set of lower-case extensions, a set of exact file names,
/// and whether files without an extension match. No order, membership only.
pub struct Filter {
    exts_lower: StringHashSet,
    names: StringHashSet,
    noext: bool,
}

impl View for Filter {
    type V = FilterView;

    closed spec fn view(&self) -> FilterView {
        FilterView { exts: self.exts_lower@, names: self.names@, noext: self.noext }
    }
}

impl Default for Filter {
    /// The filter that matches nothing.
    fn default() -> (f: Filter)
        ensures
            f@ == FilterView::empty(),
    {
        Filter { exts_lower: StringHashSet::new(), names: StringHashSet::new(), noext: false }
    }
}

impl Filter {
    /// Whether `ext` is one of the extensions held. The filter holds them
    /// in lower case and `ext` is looked up as it is given.
    pub fn has_extension(&self, ext: &str) -> (r: bool)
        ensures
            r == self@.exts.contains(ext@),
    {
        self.exts_lower.contains(ext)
    }

    /// Whether `name` is one of the exact file names held.
    pub fn has_name(&self, name: &str) -> (r: bool)
        ensures
            r == self@.names.contains(name@),
    {
        self.names.contains(name)
    }

    /// Whether files without an extension match.
    pub fn matches_no_extension(&self) -> (r: bool)
        ensures
            r == self@.noext,
    {
        self.noext
    }

    /// Takes in the token `chars[a..b]`, which is trimmed already.
    fn add_token(&mut self, chars: &Vec<char>, a: usize, b: usize)
        requires
            a <= b <= chars.len(),
        ensures
            final(self)@ == absorb(old(self)@, chars@.subrange(a as int, b as int)),
    {
        let ghost t = chars@.subrange(a as int, b as int);
        if a == b {
        } else if marker_at(chars, a, b) {
            self.noext = true;
        } else if chars[a] == '.' {
            assert(chars@.subrange(a + 1, b as int) =~= t.skip(1));
            let ext = collect_lower(chars, a + 1, b);
            self.exts_lower.insert(ext);
        } else {
            let ext = collect_lower(chars, a, b);
            let name = collect(chars, a, b);
            self.exts_lower.insert(ext);
            self.names.insert(name);
        }
    }
}

/// Whether `chars[a..b]` is the no-extension marker, in any letter case.
fn marker_at(chars: &Vec<char>, a: usize, b: usize) -> (r: bool)
    requires
        a <= b <= chars.len(),
    ensures
        r == is_marker(chars@.subrange(a as int, b as int)),
{
    let ghost t = chars@.subrange(a as int, b as int);
    let ghost m = noext_marker();
    let r = b - a == 5 && to_lower(chars[a]) == 'n' && to_lower(chars[a + 1]) == 'o' && to_lower(
        chars[a + 2],
    ) == 'e' && to_lower(chars[a + 3]) == 'x' && to_lower(chars[a + 4]) == 't';
    proof {
        assert(ascii_lower(t).len() == t.len());
        assert(m.len() == 5 && m[0] == 'n' && m[1] == 'o' && m[2] == 'e' && m[3] == 'x' && m[4]
            == 't');
        if r {
            assert(ascii_lower(t) =~= m);
        }
        if is_marker(t) {
            assert(ascii_lower(t)[0] == m[0]);
            assert(ascii_lower(t)[1] == m[1]);
            assert(ascii_lower(t)[2] == m[2]);
            assert(ascii_lower(t)[3] == m[3]);
            assert(ascii_lower(t)[4] == m[4]);
        }
    }
    r
}

/// Where the piece that starts at `from` ends: at the next `,` or at the
/// end of `chars`.
fn piece_end(chars: &Vec<char>, from: usize) -> (r: usize)
    requires
        from <= chars.len(),
    ensures
        from <= r <= chars.len(),
        r < chars.len() ==> chars@[r as int] == ',',
        forall|j: int| from <= j < r ==> chars@[j] != ',',
{
    let mut j: usize = from;
    while j < chars.len() && chars[j] != ','
        invariant
            from <= j <= chars.len(),
            forall|k: int| from <= k < j ==> chars@[k] != ',',
        decreases chars.len() - j,
    {
        j += 1;
    }
    j
}

/// The pieces of `s[..end]`, where a piece starts at `start` and runs to
/// `end` without a comma: those before `start`, then that piece.
proof fn lemma_split_step(s: Seq<char>, start: int, end: int)
    requires
        0 <= start <= end <= s.len(),
        start > 0 ==> s[start - 1] == ',',
        forall|j: int| start <= j < end ==> s[j] != ',',
    ensures
        start == 0 ==> split(s.take(end), ',') == seq![s.subrange(start, end)],
        start > 0 ==> split(s.take(end), ',') == split(s.take(start - 1), ',').push(
            s.subrange(start, end),
        ),
{
    let p = s.take(end);
    lemma_last_index_is(p, ',', start - 1);
    if start == 0 {
        assert(p =~= s.subrange(start, end));
    } else {
        assert(p.take(start - 1) =~= s.take(start - 1));
        assert(p.skip(start) =~= s.subrange(start, end));
    }
}

/// Makes a filter from a comma-separated specification. No specification
/// gives no filter. Each piece is trimmed and an empty one is passed over;
/// the marker `noext`, in any letter case, lets files without an extension
/// match; a token with a leading period adds what follows the period, in
/// lower case, to the extensions; any other token adds itself, in lower
/// case, to the extensions and, as it is, to the exact names.
pub fn parse_filter(list: Option<&str>) -> (r: Option<Filter>)
    ensures
        match list {
            Some(s) => r is Some && r->0@ == filter_of(s@) && r->0@.wf(),
            None => r is None,
        },
{
    let s = match list {
        Some(s) => s,
        None => {
            return None;
        },
    };
    let chars = chars_of(s);
    let n = chars.len();
    let mut f = Filter::default();
    let mut start: usize = 0;
    let ghost mut pieces: Seq<Seq<char>> = Seq::empty();
    proof {
        lemma_filter_of_no_tokens();
        assert(trim_all(pieces) =~= Seq::empty());
    }
    loop
        invariant_except_break
            start <= n,
            start == 0 ==> pieces == Seq::<Seq<char>>::empty(),
            start > 0 ==> chars@[start - 1] == ',' && pieces == split(
                chars@.take(start - 1),
                ',',
            ),
            f@ == filter_of_tokens(trim_all(pieces)),
        invariant
            n == chars.len(),
        ensures
            f@ == filter_of(chars@),
        decreases n - start,
    {
        let end = piece_end(&chars, start);
        let (a, b) = trim_bounds(&chars, start, end);
        f.add_token(&chars, a, b);
        proof {
            let piece = chars@.subrange(start as int, end as int);
            let more = if start == 0 {
                seq![piece]
            } else {
                pieces.push(piece)
            };
            lemma_split_step(chars@, start as int, end as int);
            assert(more =~= pieces.push(piece));
            assert(trim_all(more) =~= trim_all(pieces).push(trim(piece)));
            lemma_filter_push(trim_all(pieces), trim(piece));
            pieces = more;
            if end == n {
                assert(chars@.take(end as int) =~= chars@);
            }
        }
        if end == n {
            break ;
        }
        start = end + 1;
    }
    proof {
        lemma_filter_of_wf(chars@);
    }
    Some(f)
}

/// Whether the filter matches the file that `path` names: its extension,
/// in any letter case, is among the filter's extensions; or its file name
/// is among the exact names; or it has no extension and the filter lets
/// such files match.
pub fn matches_filter(path: &str, f: &Filter) -> (r: bool)
    ensures
        r == f@.matches(path@),
{
    let chars = chars_of(path);
    let n = chars.len();
    let start = name_start(&chars);
    assert(chars@.subrange(start as int, n as int) =~= chars@.skip(start as int));
    let name = collect(&chars, start, n);
    let ext_ok = match extension_start(&chars, start) {
        Some(e) => {
            assert(chars@.subrange(e as int, n as int) =~= chars@.skip(e as int));
            let ext_lower = collect_lower(&chars, e, n);
            f.exts_lower.contains(ext_lower.as_str())
        },
        None => f.noext,
    };
    ext_ok || f.names.contains(name.as_str())
}

} // verus!
