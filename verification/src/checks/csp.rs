//! Content-Security-Policy analysis.

use crate::fields::optional_text;
use crate::response::{Fetched, FetchedView};
use crate::section::{bad_line, section, Section, SectionView};
use crate::style::{dim, dimmed, magenta, magentaed, Style};
use crate::text::{
    cat2, cat4, ends, ends_with, join, joined, lemma_pieces_concat, lemma_pieces_whole, lowered,
    pieces, same, split, split_words, texts, to_lowercase, words, CharSet,
};
use vstd::prelude::*;
use vstd::string::*;

verus! {

/// A directive of a policy: its name in lower case, and its values.
pub struct Directive {
    pub name: String,
    pub vals: Vec<String>,
}

/// What a directive holds.
pub type DirectiveView = (Seq<char>, Seq<Seq<char>>);

impl View for Directive {
    type V = (Seq<char>, Seq<Seq<char>>);

    open spec fn view(&self) -> (Seq<char>, Seq<Seq<char>>) {
        (self.name@, texts(self.vals@))
    }
}

/// The views of some directives.
pub open spec fn directive_views(v: Seq<Directive>) -> Seq<DirectiveView> {
    Seq::new(v.len(), |i: int| v[i]@)
}

/// The directives that some parts of a policy give; blank parts give none.
pub open spec fn directives_in(parts: Seq<Seq<char>>) -> Seq<DirectiveView>
    decreases parts.len(),
{
    if parts.len() == 0 {
        Seq::empty()
    } else {
        let had = directives_in(parts.drop_last());
        let w = words(parts.last());
        if w.len() == 0 {
            had
        } else {
            had.push((lowered(w[0]), w.skip(1)))
        }
    }
}

/// The directives of a policy.
pub open spec fn policy_directives(policy: Seq<char>) -> Seq<DirectiveView> {
    directives_in(pieces(policy, CharSet::One(';')))
}

/// The line that shows a directive.
pub open spec fn directive_line(st: Style, d: DirectiveView) -> Seq<char> {
    "  "@ + magentaed(st, d.0) + " "@ + dimmed(st, joined(d.1, " "@))
}

/// The lines that show some directives.
pub open spec fn directive_lines(st: Style, ds: Seq<DirectiveView>) -> Seq<Seq<char>> {
    Seq::new(ds.len(), |i: int| directive_line(st, ds[i]))
}

/// Whether there is a fallback for the source directives.
pub open spec fn has_fallback(ds: Seq<DirectiveView>) -> bool {
    exists|i: int| 0 <= i < ds.len() && (#[trigger] ds[i]).0 == "default-src"@
}

/// Whether the values of a directive are judged. frame-ancestors does not end
/// in -src but controls framing, and it overrides X-Frame-Options, so its value
/// matters just as much.
pub open spec fn is_judged(name: Seq<char>) -> bool {
    ends(name, "-src"@) || name == "frame-ancestors"@
}

/// What a value gives away, if anything.
pub open spec fn given_away(v: Seq<char>) -> Option<Seq<char>> {
    if v == "'unsafe-inline'"@ {
        Some(" allows 'unsafe-inline'"@)
    } else if v == "'unsafe-eval'"@ {
        Some(" allows 'unsafe-eval'"@)
    } else if v == "*"@ {
        Some(" allows wildcard *"@)
    } else if v == "http:"@ {
        Some(" allows http: sources"@)
    } else {
        None
    }
}

/// The complaints about the values of a directive.
pub open spec fn value_faults(st: Style, name: Seq<char>, vals: Seq<Seq<char>>) -> Seq<Seq<char>>
    decreases vals.len(),
{
    if vals.len() == 0 {
        Seq::empty()
    } else {
        let had = value_faults(st, name, vals.drop_last());
        match given_away(vals.last()) {
            Some(what) => had.push(bad_line(st, name + what)),
            None => had,
        }
    }
}

/// The complaints about some directives.
pub open spec fn directive_faults(st: Style, ds: Seq<DirectiveView>) -> Seq<Seq<char>>
    decreases ds.len(),
{
    if ds.len() == 0 {
        Seq::empty()
    } else {
        let had = directive_faults(st, ds.drop_last());
        if is_judged(ds.last().0) {
            had + value_faults(st, ds.last().0, ds.last().1)
        } else {
            had
        }
    }
}

/// The lines on a policy.
pub open spec fn policy_lines(st: Style, policy: Seq<char>) -> Seq<Seq<char>> {
    let ds = policy_directives(policy);
    directive_lines(st, ds) + (if has_fallback(ds) {
        Seq::empty()
    } else {
        seq![bad_line(st, "no default-src fallback"@)]
    }) + directive_faults(st, ds)
}

/// The section on CSP.
pub open spec fn csp_section(f: FetchedView, st: Style) -> SectionView {
    section(
        "Content-Security-Policy"@,
        match f.get("content-security-policy"@) {
            Some(p) => policy_lines(st, p),
            None => if f.get("content-security-policy-report-only"@) is Some {
                seq![bad_line(st, "only Content-Security-Policy-Report-Only set"@)]
            } else {
                seq![bad_line(st, "no Content-Security-Policy header"@)]
            },
        },
    )
}

fn tail(w: &Vec<String>) -> (r: Vec<String>)
    requires
        w@.len() > 0,
    ensures
        texts(r@) == texts(w@).skip(1),
{
    let mut r: Vec<String> = Vec::new();
    let mut i: usize = 1;
    while i < w.len()
        invariant
            1 <= i <= w@.len(),
            r@.len() == i - 1,
            forall|j: int| 0 <= j < i - 1 ==> (#[trigger] r@[j])@ == w@[j + 1]@,
        decreases w@.len() - i,
    {
        r.push(w[i].as_str().to_owned());
        i += 1;
    }
    assert(texts(r@) =~= texts(w@).skip(1));
    r
}

/// Parses the directives of a policy.
pub fn parse_policy(policy: &str) -> (r: Vec<Directive>)
    ensures
        directive_views(r@) == policy_directives(policy@),
{
    let parts = split(policy, CharSet::One(';'));
    let ghost p = texts(parts@);
    let mut r: Vec<Directive> = Vec::new();
    let mut i: usize = 0;
    assert(directive_views(r@) =~= directives_in(p.take(0)));
    while i < parts.len()
        invariant
            i <= parts@.len(),
            p == texts(parts@),
            directive_views(r@) == directives_in(p.take(i as int)),
        decreases parts@.len() - i,
    {
        assert(p.take(i + 1).drop_last() =~= p.take(i as int));
        assert(p.take(i + 1).last() == parts@[i as int]@);
        let w = split_words(parts[i].as_str());
        if w.len() > 0 {
            let ghost had = directive_views(r@);
            let name = to_lowercase(w[0].as_str());
            assert(texts(w@)[0] == w@[0]@);
            let d = Directive { name, vals: tail(&w) };
            let ghost dv = d@;
            r.push(d);
            assert(directive_views(r@) =~= had.push(dv));
        } else {
            assert(texts(w@).len() == 0);
        }
        i += 1;
    }
    assert(p.take(i as int) =~= p);
    r
}

fn falls_back(ds: &Vec<Directive>) -> (r: bool)
    ensures
        r == has_fallback(directive_views(ds@)),
{
    let ghost dv = directive_views(ds@);
    let mut i: usize = 0;
    while i < ds.len()
        invariant
            i <= ds@.len(),
            dv == directive_views(ds@),
            forall|j: int| 0 <= j < i ==> (#[trigger] dv[j]).0 != "default-src"@,
        decreases ds@.len() - i,
    {
        assert(dv[i as int].0 == ds@[i as int].name@);
        if same(ds[i].name.as_str(), "default-src") {
            return true;
        }
        i += 1;
    }
    false
}

fn what_is_given(v: &str) -> (r: Option<String>)
    ensures
        optional_text(r) == given_away(v@),
{
    if same(v, "'unsafe-inline'") {
        Some(" allows 'unsafe-inline'".to_owned())
    } else if same(v, "'unsafe-eval'") {
        Some(" allows 'unsafe-eval'".to_owned())
    } else if same(v, "*") {
        Some(" allows wildcard *".to_owned())
    } else if same(v, "http:") {
        Some(" allows http: sources".to_owned())
    } else {
        None
    }
}

fn judge_values(st: Style, sec: &mut Section, d: &Directive)
    ensures
        final(sec)@ == old(sec)@.with_all(value_faults(st, d@.0, d@.1)),
{
    let ghost start = sec@;
    let ghost vals = texts(d.vals@);
    let mut i: usize = 0;
    assert(sec@.lines =~= start.lines + value_faults(st, d@.0, vals.take(0)));
    while i < d.vals.len()
        invariant
            i <= d.vals@.len(),
            vals == texts(d.vals@),
            sec@.title == start.title,
            sec@.lines == start.lines + value_faults(st, d@.0, vals.take(i as int)),
        decreases d.vals@.len() - i,
    {
        assert(vals.take(i + 1).drop_last() =~= vals.take(i as int));
        assert(vals.take(i + 1).last() == d.vals@[i as int]@);
        match what_is_given(d.vals[i].as_str()) {
            Some(what) => {
                let t = cat2(d.name.as_str(), what.as_str());
                sec.bad(st, t.as_str());
                assert(sec@.lines =~= start.lines + value_faults(st, d@.0, vals.take(i + 1)));
            },
            None => {},
        }
        i += 1;
    }
    assert(vals.take(i as int) =~= vals);
}

/// Parses the CSP, and flags what it gives away.
pub fn csp(f: &Fetched, st: Style) -> (r: Section)
    ensures
        r@ == csp_section(f@, st),
{
    let mut sec = Section::new("Content-Security-Policy");
    let policy = match f.get("content-security-policy") {
        Some(p) => p,
        None => {
            match f.get("content-security-policy-report-only") {
                Some(_) => sec.bad(st, "only Content-Security-Policy-Report-Only set"),
                None => sec.bad(st, "no Content-Security-Policy header"),
            }
            assert(sec@.lines =~= csp_section(f@, st).lines);
            return sec;
        },
    };
    let ds = parse_policy(policy.as_str());
    let ghost dv = directive_views(ds@);
    let mut i: usize = 0;
    assert(sec@.lines =~= directive_lines(st, dv.take(0)));
    while i < ds.len()
        invariant
            i <= ds@.len(),
            dv == directive_views(ds@),
            sec@.title == "Content-Security-Policy"@,
            sec@.lines == directive_lines(st, dv.take(i as int)),
        decreases ds@.len() - i,
    {
        let n = magenta(st, ds[i].name.as_str());
        let vals = join(&ds[i].vals, " ");
        let v = dim(st, vals.as_str());
        let l = cat4("  ", n.as_str(), " ", v.as_str());
        assert(l@ == directive_line(st, dv[i as int]));
        sec.text(l.as_str());
        assert(sec@.lines =~= directive_lines(st, dv.take(i + 1)));
        i += 1;
    }
    assert(dv.take(i as int) =~= dv);
    if !falls_back(&ds) {
        sec.bad(st, "no default-src fallback");
    }
    let ghost upper = sec@.lines;
    assert(upper =~= directive_lines(st, dv) + (if has_fallback(dv) {
        Seq::empty()
    } else {
        seq![bad_line(st, "no default-src fallback"@)]
    }));
    let mut k: usize = 0;
    assert(upper =~= upper + directive_faults(st, dv.take(0)));
    while k < ds.len()
        invariant
            k <= ds@.len(),
            dv == directive_views(ds@),
            sec@.title == "Content-Security-Policy"@,
            sec@.lines == upper + directive_faults(st, dv.take(k as int)),
        decreases ds@.len() - k,
    {
        assert(dv.take(k + 1).drop_last() =~= dv.take(k as int));
        assert(dv.take(k + 1).last() == ds@[k as int]@);
        let name = ds[k].name.as_str();
        if ends_with(name, "-src") || same(name, "frame-ancestors") {
            judge_values(st, &mut sec, &ds[k]);
            assert(sec@.lines =~= upper + directive_faults(st, dv.take(k + 1)));
        }
        k += 1;
    }
    assert(dv.take(k as int) =~= dv);
    sec
}

// ---------------------------------------------------------------------------
// Laws
// ---------------------------------------------------------------------------

proof fn lemma_value_flagged(st: Style, name: Seq<char>, vals: Seq<Seq<char>>, j: int)
    requires
        0 <= j < vals.len(),
        given_away(vals[j]) is Some,
    ensures
        value_faults(st, name, vals).contains(bad_line(st, name + given_away(vals[j])->0)),
    decreases vals.len(),
{
    let x = bad_line(st, name + given_away(vals[j])->0);
    let all = value_faults(st, name, vals);
    let had = value_faults(st, name, vals.drop_last());
    if j == vals.len() - 1 {
        assert(all.last() == x);
    } else {
        lemma_value_flagged(st, name, vals.drop_last(), j);
        let k = choose|k: int| 0 <= k < had.len() && had[k] == x;
        assert(all[k] == x);
    }
}

proof fn lemma_directive_flagged(st: Style, ds: Seq<DirectiveView>, i: int, j: int)
    requires
        0 <= i < ds.len(),
        is_judged(ds[i].0),
        0 <= j < ds[i].1.len(),
        given_away(ds[i].1[j]) is Some,
    ensures
        directive_faults(st, ds).contains(bad_line(st, ds[i].0 + given_away(ds[i].1[j])->0)),
    decreases ds.len(),
{
    let x = bad_line(st, ds[i].0 + given_away(ds[i].1[j])->0);
    let all = directive_faults(st, ds);
    let had = directive_faults(st, ds.drop_last());
    if i == ds.len() - 1 {
        lemma_value_flagged(st, ds[i].0, ds[i].1, j);
        let new = value_faults(st, ds[i].0, ds[i].1);
        let k = choose|k: int| 0 <= k < new.len() && new[k] == x;
        assert(all[had.len() + k] == x);
    } else {
        lemma_directive_flagged(st, ds.drop_last(), i, j);
        let k = choose|k: int| 0 <= k < had.len() && had[k] == x;
        assert(all[k] == x);
    }
}

/// Every value that gives something away is flagged, in every directive that is
/// judged.
pub proof fn law_every_weak_source_is_flagged(st: Style, policy: Seq<char>, i: int, j: int)
    requires
        0 <= i < policy_directives(policy).len(),
        is_judged(policy_directives(policy)[i].0),
        0 <= j < policy_directives(policy)[i].1.len(),
        given_away(policy_directives(policy)[i].1[j]) is Some,
    ensures
        policy_lines(st, policy).contains(
            bad_line(
                st,
                policy_directives(policy)[i].0 + given_away(policy_directives(policy)[i].1[j])->0,
            ),
        ),
{
    let ds = policy_directives(policy);
    lemma_directive_flagged(st, ds, i, j);
    let x = bad_line(st, ds[i].0 + given_away(ds[i].1[j])->0);
    let faults = directive_faults(st, ds);
    let k = choose|k: int| 0 <= k < faults.len() && faults[k] == x;
    let all = policy_lines(st, policy);
    assert(all[all.len() - faults.len() + k] == x);
}

/// A policy without a fallback for its sources is flagged.
pub proof fn law_missing_fallback_is_flagged(st: Style, policy: Seq<char>)
    requires
        !has_fallback(policy_directives(policy)),
    ensures
        policy_lines(st, policy).contains(bad_line(st, "no default-src fallback"@)),
{
    let n = policy_directives(policy).len() as int;
    assert(policy_lines(st, policy)[n] == bad_line(st, "no default-src fallback"@));
}

proof fn lemma_directives_concat(a: Seq<Seq<char>>, b: Seq<Seq<char>>)
    ensures
        directives_in(a + b) == directives_in(a) + directives_in(b),
    decreases b.len(),
{
    if b.len() == 0 {
        assert(a + b =~= a);
        assert(directives_in(a) + directives_in(b) =~= directives_in(a));
    } else {
        lemma_directives_concat(a, b.drop_last());
        assert((a + b).drop_last() =~= a + b.drop_last());
        assert(directives_in(a + b) =~= directives_in(a) + directives_in(b));
    }
}

/// A semicolon parts directives: each side of it is read on its own. A part
/// without one is a directive, named by its first word in lower case, with the
/// other words for its values; a blank part is none.
pub proof fn law_policies_are_read(a: Seq<char>, b: Seq<char>)
    ensures
        policy_directives(a + seq![';'] + b) == policy_directives(a) + policy_directives(b),
        !a.contains(';') && words(a).len() > 0 ==> policy_directives(a) == seq![
            (lowered(words(a)[0]), words(a).skip(1)),
        ],
        !a.contains(';') && words(a).len() == 0 ==> policy_directives(a) == Seq::<
            DirectiveView,
        >::empty(),
{
    let k = CharSet::One(';');
    lemma_pieces_concat(a, ';', b, k);
    lemma_directives_concat(pieces(a, k), pieces(b, k));
    if !a.contains(';') {
        assert forall|i: int| 0 <= i < a.len() implies !k.has(#[trigger] a[i]) by {
            assert(a.contains(a[i]));
        }
        lemma_pieces_whole(a, k);
        reveal_with_fuel(directives_in, 2);
        assert(seq![a].drop_last() =~= Seq::empty());
        assert(words(a).len() > 0 ==> policy_directives(a) =~= seq![
            (lowered(words(a)[0]), words(a).skip(1)),
        ]);
    }
}

proof fn lemma_directive_there(parts: Seq<Seq<char>>, k: int)
    requires
        0 <= k < parts.len(),
        words(parts[k]).len() > 0,
    ensures
        exists|i: int|
            0 <= i < directives_in(parts).len() && #[trigger] directives_in(parts)[i] == (
                lowered(words(parts[k])[0]),
                words(parts[k]).skip(1),
            ),
    decreases parts.len(),
{
    let all = directives_in(parts);
    let had = directives_in(parts.drop_last());
    let d = (lowered(words(parts[k])[0]), words(parts[k]).skip(1));
    if k == parts.len() - 1 {
        assert(all[all.len() - 1] == d);
    } else {
        lemma_directive_there(parts.drop_last(), k);
        let i = choose|i: int| 0 <= i < had.len() && #[trigger] had[i] == d;
        assert(all[i] == d);
    }
}

proof fn lemma_directive_from(parts: Seq<Seq<char>>, i: int)
    requires
        0 <= i < directives_in(parts).len(),
    ensures
        exists|k: int|
            0 <= k < parts.len() && words(#[trigger] parts[k]).len() > 0 && directives_in(parts)[i]
                == (lowered(words(parts[k])[0]), words(parts[k]).skip(1)),
    decreases parts.len(),
{
    let had = directives_in(parts.drop_last());
    if i < had.len() {
        lemma_directive_from(parts.drop_last(), i);
        let k = choose|k: int|
            0 <= k < parts.drop_last().len() && words(#[trigger] parts.drop_last()[k]).len() > 0
                && had[i] == (
                lowered(words(parts.drop_last()[k])[0]),
                words(parts.drop_last()[k]).skip(1),
            );
        assert(parts[k] == parts.drop_last()[k]);
    } else {
        assert(parts[parts.len() - 1] == parts.last());
    }
}

/// Every directive that governs sources, which are those whose name ends in
/// `-src`, or framing, is held to its values: a value that allows inline code,
/// evaluation, any source or plain http is flagged with the name of the
/// directive. `k` is a part of the policy between semicolons, `j` a word in it.
pub proof fn law_weak_sources_are_flagged(
    f: FetchedView,
    st: Style,
    policy: Seq<char>,
    k: int,
    j: int,
)
    requires
        f.get("content-security-policy"@) == Some(policy),
        0 <= k < pieces(policy, CharSet::One(';')).len(),
        1 <= j < words(pieces(policy, CharSet::One(';'))[k]).len(),
    ensures
        ({
            let w = words(pieces(policy, CharSet::One(';'))[k]);
            let name = lowered(w[0]);
            let all = csp_section(f, st).lines;
            ends(name, "-src"@) || name == "default-src"@ || name == "frame-ancestors"@ ==> {
                &&& w[j] == "'unsafe-inline'"@ ==> all.contains(
                    bad_line(st, name + " allows 'unsafe-inline'"@),
                )
                &&& w[j] == "'unsafe-eval'"@ ==> all.contains(
                    bad_line(st, name + " allows 'unsafe-eval'"@),
                )
                &&& w[j] == "*"@ ==> all.contains(bad_line(st, name + " allows wildcard *"@))
                &&& w[j] == "http:"@ ==> all.contains(
                    bad_line(st, name + " allows http: sources"@),
                )
            }
        }),
{
    reveal_strlit("'unsafe-inline'");
    reveal_strlit("'unsafe-eval'");
    reveal_strlit("*");
    reveal_strlit("http:");
    reveal_strlit("default-src");
    reveal_strlit("-src");
    assert("'unsafe-inline'"@.len() == 15 && "'unsafe-eval'"@.len() == 13 && "*"@.len() == 1
        && "http:"@.len() == 5);
    assert("default-src"@.skip(7) =~= "-src"@);
    let parts = pieces(policy, CharSet::One(';'));
    let w = words(parts[k]);
    let name = lowered(w[0]);
    lemma_directive_there(parts, k);
    let ds = policy_directives(policy);
    let i = choose|i: int| 0 <= i < ds.len() && #[trigger] ds[i] == (name, w.skip(1));
    assert(ds[i].1[j - 1] == w[j]);
    if is_judged(name) && given_away(w[j]) is Some {
        law_every_weak_source_is_flagged(st, policy, i, j - 1);
    }
    assert(ends(name, "-src"@) || name == "default-src"@ || name == "frame-ancestors"@
        ==> is_judged(name));
}

/// Whether `t` is what is said of a weak value of a directive of that name,
/// which governs sources or framing.
pub open spec fn weakness(name: Seq<char>, v: Seq<char>, t: Seq<char>) -> bool {
    (ends(name, "-src"@) || name == "frame-ancestors"@) && {
        ||| v == "'unsafe-inline'"@ && t == name + " allows 'unsafe-inline'"@
        ||| v == "'unsafe-eval'"@ && t == name + " allows 'unsafe-eval'"@
        ||| v == "*"@ && t == name + " allows wildcard *"@
        ||| v == "http:"@ && t == name + " allows http: sources"@
    }
}

/// Whether a weak value in some part of a policy is cause for the line `l`.
pub open spec fn justified(st: Style, policy: Seq<char>, l: Seq<char>) -> bool {
    exists|k: int, j: int, t: Seq<char>|
        0 <= k < pieces(policy, CharSet::One(';')).len() && 1 <= j < words(
            pieces(policy, CharSet::One(';'))[k],
        ).len() && l == bad_line(st, t) && #[trigger] weakness(
            lowered(words(#[trigger] pieces(policy, CharSet::One(';'))[k])[0]),
            #[trigger] words(pieces(policy, CharSet::One(';'))[k])[j],
            t,
        )
}

proof fn lemma_value_fault_from(st: Style, name: Seq<char>, vals: Seq<Seq<char>>, i: int)
    requires
        0 <= i < value_faults(st, name, vals).len(),
        ends(name, "-src"@) || name == "frame-ancestors"@,
    ensures
        exists|j: int, t: Seq<char>|
            0 <= j < vals.len() && value_faults(st, name, vals)[i] == bad_line(st, t)
                && #[trigger] weakness(name, #[trigger] vals[j], t),
    decreases vals.len(),
{
    let had = value_faults(st, name, vals.drop_last());
    if i < had.len() {
        lemma_value_fault_from(st, name, vals.drop_last(), i);
        let (j, t) = choose|j: int, t: Seq<char>|
            0 <= j < vals.drop_last().len() && had[i] == bad_line(st, t) && #[trigger] weakness(
                name,
                #[trigger] vals.drop_last()[j],
                t,
            );
        assert(weakness(name, vals[j], t));
    } else {
        let t = name + given_away(vals.last())->0;
        assert(weakness(name, vals[vals.len() - 1], t));
    }
}

proof fn lemma_fault_from(st: Style, ds: Seq<DirectiveView>, i: int)
    requires
        0 <= i < directive_faults(st, ds).len(),
    ensures
        exists|k: int, j: int, t: Seq<char>|
            0 <= k < ds.len() && 0 <= j < ds[k].1.len() && directive_faults(st, ds)[i] == bad_line(
                st,
                t,
            ) && #[trigger] weakness((#[trigger] ds[k]).0, #[trigger] ds[k].1[j], t),
    decreases ds.len(),
{
    let had = directive_faults(st, ds.drop_last());
    if i < had.len() {
        lemma_fault_from(st, ds.drop_last(), i);
        let (k, j, t) = choose|k: int, j: int, t: Seq<char>|
            0 <= k < ds.drop_last().len() && 0 <= j < ds.drop_last()[k].1.len() && had[i]
                == bad_line(st, t) && #[trigger] weakness(
                (#[trigger] ds.drop_last()[k]).0,
                #[trigger] ds.drop_last()[k].1[j],
                t,
            );
        assert(weakness(ds[k].0, ds[k].1[j], t));
    } else {
        let d = ds.last();
        lemma_value_fault_from(st, d.0, d.1, i - had.len());
        let (j, t) = choose|j: int, t: Seq<char>|
            0 <= j < d.1.len() && value_faults(st, d.0, d.1)[i - had.len()] == bad_line(st, t)
                && #[trigger] weakness(d.0, #[trigger] d.1[j], t);
        assert(weakness(ds[ds.len() - 1].0, ds[ds.len() - 1].1[j], t));
    }
}

/// Each directive has a line of its own, in the order of the policy, before any
/// complaint. The lack of a default-src comes next, and is told exactly when no
/// part of the policy is named so. Every further line has a weak value for its
/// cause.
pub proof fn law_directives_are_shown(f: FetchedView, st: Style, policy: Seq<char>)
    requires
        f.get("content-security-policy"@) == Some(policy),
    ensures
        ({
            let parts = pieces(policy, CharSet::One(';'));
            let ds = policy_directives(policy);
            let n = ds.len() as int;
            let sec = csp_section(f, st);
            let fallback = exists|k: int|
                0 <= k < parts.len() && words(#[trigger] parts[k]).len() > 0 && lowered(
                    words(parts[k])[0],
                ) == "default-src"@;
            let from = if fallback {
                n
            } else {
                n + 1
            };
            &&& sec.title == "Content-Security-Policy"@
            &&& sec.lines.len() >= from
            &&& forall|i: int|
                0 <= i < n ==> #[trigger] sec.lines[i] == "  "@ + magentaed(st, ds[i].0) + " "@
                    + dimmed(st, joined(ds[i].1, " "@))
            &&& !fallback ==> sec.lines[n] == bad_line(st, "no default-src fallback"@)
            &&& forall|i: int|
                from <= i < sec.lines.len() ==> justified(st, policy, #[trigger] sec.lines[i])
        }),
{
    let parts = pieces(policy, CharSet::One(';'));
    let ds = policy_directives(policy);
    let n = ds.len() as int;
    let all = csp_section(f, st).lines;
    let fallback = exists|k: int|
        0 <= k < parts.len() && words(#[trigger] parts[k]).len() > 0 && lowered(words(parts[k])[0])
            == "default-src"@;
    assert(fallback == has_fallback(ds)) by {
        if fallback {
            let k = choose|k: int|
                0 <= k < parts.len() && words(#[trigger] parts[k]).len() > 0 && lowered(
                    words(parts[k])[0],
                ) == "default-src"@;
            lemma_directive_there(parts, k);
        }
        if has_fallback(ds) {
            let i = choose|i: int| 0 <= i < ds.len() && (#[trigger] ds[i]).0 == "default-src"@;
            lemma_directive_from(parts, i);
        }
    }
    let from = if fallback {
        n
    } else {
        n + 1
    };
    let faults = directive_faults(st, ds);
    assert(all.len() == from + faults.len());
    assert forall|i: int| from <= i < all.len() implies justified(
        st,
        policy,
        #[trigger] all[i],
    ) by {
        assert(all[i] == faults[i - from]);
        lemma_fault_from(st, ds, i - from);
        let (m, j, t) = choose|m: int, j: int, t: Seq<char>|
            0 <= m < ds.len() && 0 <= j < ds[m].1.len() && faults[i - from] == bad_line(st, t)
                && #[trigger] weakness((#[trigger] ds[m]).0, #[trigger] ds[m].1[j], t);
        lemma_directive_from(parts, m);
        let k = choose|k: int|
            0 <= k < parts.len() && words(#[trigger] parts[k]).len() > 0 && ds[m] == (
                lowered(words(parts[k])[0]),
                words(parts[k]).skip(1),
            );
        assert(ds[m].1[j] == words(parts[k])[j + 1]);
        assert(weakness(lowered(words(parts[k])[0]), words(parts[k])[j + 1], t));
    }
}

/// A page without a policy is told so, and that it only reports if it does.
pub proof fn law_a_missing_policy_is_told(f: FetchedView, st: Style)
    requires
        f.get("content-security-policy"@) is None,
    ensures
        csp_section(f, st).lines == seq![
            bad_line(
                st,
                if f.get("content-security-policy-report-only"@) is Some {
                    "only Content-Security-Policy-Report-Only set"@
                } else {
                    "no Content-Security-Policy header"@
                },
            ),
        ],
{
}

/// Every weak value is told, as often as it stands there: each value adds its
/// line behind those before it if it is weak, and each directive that governs
/// sources or framing adds the lines of its values.
pub proof fn law_complaints_add_up(
    st: Style,
    name: Seq<char>,
    vals: Seq<Seq<char>>,
    v: Seq<char>,
    ds: Seq<DirectiveView>,
    d: DirectiveView,
)
    ensures
        ({
            let none = Seq::<Seq<char>>::empty();
            let had = value_faults(st, name, vals);
            let all = value_faults(st, name, vals.push(v));
            let governs = ends(d.0, "-src"@) || d.0 == "frame-ancestors"@;
            &&& value_faults(st, name, none) == none
            &&& v == "'unsafe-inline'"@ ==> all == had.push(
                bad_line(st, name + " allows 'unsafe-inline'"@),
            )
            &&& v == "'unsafe-eval'"@ ==> all == had.push(
                bad_line(st, name + " allows 'unsafe-eval'"@),
            )
            &&& v == "*"@ ==> all == had.push(bad_line(st, name + " allows wildcard *"@))
            &&& v == "http:"@ ==> all == had.push(bad_line(st, name + " allows http: sources"@))
            &&& v != "'unsafe-inline'"@ && v != "'unsafe-eval'"@ && v != "*"@ && v != "http:"@
                ==> all == had
            &&& directive_faults(st, Seq::<DirectiveView>::empty()) == none
            &&& governs ==> directive_faults(st, ds.push(d)) == directive_faults(st, ds)
                + value_faults(st, d.0, d.1)
            &&& !governs ==> directive_faults(st, ds.push(d)) == directive_faults(st, ds)
        }),
{
    reveal_strlit("'unsafe-inline'");
    reveal_strlit("'unsafe-eval'");
    reveal_strlit("*");
    reveal_strlit("http:");
    assert("'unsafe-inline'"@.len() == 15 && "'unsafe-eval'"@.len() == 13 && "*"@.len() == 1
        && "http:"@.len() == 5);
    assert(vals.push(v).drop_last() =~= vals);
    assert(ds.push(d).drop_last() =~= ds);
}

/// Behind the directives and the lack of a fallback stand the complaints about
/// the directives, and nothing else.
pub proof fn law_complaints_come_last(f: FetchedView, st: Style, policy: Seq<char>)
    requires
        f.get("content-security-policy"@) == Some(policy),
    ensures
        ({
            let all = csp_section(f, st).lines;
            let faults = directive_faults(st, policy_directives(policy));
            &&& all.len() >= faults.len()
            &&& all.skip(all.len() - faults.len()) == faults
        }),
{
    let all = csp_section(f, st).lines;
    let faults = directive_faults(st, policy_directives(policy));
    assert(all.skip(all.len() - faults.len()) =~= faults);
}

} // verus!
