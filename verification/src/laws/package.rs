//! `swift package describe`: which line of the output becomes what in the report.

use crate::ansi::without_ansi;
use crate::cmds::apple::swift_cmd::package::{
    any_describe_marker, is_describe_marker, package_described, package_line, package_lines,
    package_read, package_report, package_step, section_of, swift_package_filtered, target_lines,
    PackageLine, PackageView, Section,
};
use crate::laws::picks::{
    last_before, last_position, law_last_position, lemma_picked_at_next, lemma_picked_at_same,
    picked_at,
};
use crate::pattern::{
    group_text, regex_captures, regex_matches, FoundText, INDENTED_NAME, INDENTED_TYPE,
    INDENTED_VERSION, PACKAGE_NAME,
};
use crate::text::{decimal, joined, lines_of, trimmed};
use vstd::prelude::*;

verus! {

// ─── Lines ──────────────────────────────────────────────────────────────────

/// Whether a line is the header of a section: it is not indented and ends in a
/// colon.
pub open spec fn heads(line: Seq<char>) -> bool {
    line.len() > 0 && line[0] != ' ' && line[0] != '\t' && line.last() == ':'
}

/// Whether a line is no header, and the nearest header before it is this one.
pub open spec fn stands_under(lines: Seq<Seq<char>>, i: int, header: Seq<char>) -> bool {
    &&& !heads(lines[i])
    &&& match last_before(lines, i, |line: Seq<char>| heads(line)) {
        Some(head) => trimmed(head) == header,
        None => false,
    }
}

/// Whether a line is no header and there is none before it.
pub open spec fn stands_first(lines: Seq<Seq<char>>, i: int) -> bool {
    !heads(lines[i]) && last_before(lines, i, |line: Seq<char>| heads(line)) is None
}

/// Whether a line gives a name.
pub open spec fn names(line: Seq<char>) -> bool {
    regex_matches(INDENTED_NAME@, line)
}

/// The name that a line gives.
pub open spec fn name_on(line: Seq<char>) -> Seq<char> {
    trimmed(group_text(regex_captures(INDENTED_NAME@, line), 1))
}

/// The version that a line gives, in brackets; nothing where it gives none.
pub open spec fn version_on(line: Seq<char>) -> Seq<char> {
    if regex_matches(INDENTED_VERSION@, line) {
        " ("@ + trimmed(group_text(regex_captures(INDENTED_VERSION@, line), 1)) + ")"@
    } else {
        seq![]
    }
}

/// The type that a line gives; nothing where it gives none.
pub open spec fn kind_on(line: Seq<char>) -> Seq<char> {
    if regex_matches(INDENTED_TYPE@, line) {
        trimmed(group_text(regex_captures(INDENTED_TYPE@, line), 1))
    } else {
        seq![]
    }
}

/// Whether nothing behind this line belongs to the dependency before it.
pub open spec fn ends_dep(line: Seq<char>) -> bool {
    heads(line) || names(line)
}

/// Whether nothing behind this line belongs to the target before it.
pub open spec fn ends_target(line: Seq<char>) -> bool {
    heads(line) || names(line) || trimmed(line).len() == 0
}

/// The versions on the lines from `j` to `n`, up to the next name or header.
pub open spec fn versions_from(lines: Seq<Seq<char>>, j: int, n: int) -> Seq<char>
    decreases n - j,
{
    if j >= n || ends_dep(lines[j]) {
        seq![]
    } else {
        version_on(lines[j]) + versions_from(lines, j + 1, n)
    }
}

/// The first type on the lines from `j` to `n`, up to the next name, header or empty
/// line.
pub open spec fn kind_from(lines: Seq<Seq<char>>, j: int, n: int) -> Seq<char>
    decreases n - j,
{
    if j >= n || ends_target(lines[j]) {
        seq![]
    } else if kind_on(lines[j]).len() > 0 {
        kind_on(lines[j])
    } else {
        kind_from(lines, j + 1, n)
    }
}

/// A package name: a line before the first header that gives one.
pub open spec fn package_at(lines: Seq<Seq<char>>, i: int) -> Option<Seq<char>> {
    let found = regex_captures(PACKAGE_NAME@, lines[i]);
    if stands_first(lines, i) && found is Some && trimmed(group_text(found, 1)).len() > 0 {
        Some(trimmed(group_text(found, 1)))
    } else {
        None
    }
}

/// A product: a line under their header that gives a name.
pub open spec fn product_at(lines: Seq<Seq<char>>, i: int) -> Option<Seq<char>> {
    if stands_under(lines, i, "Products:"@) && names(lines[i]) {
        Some(name_on(lines[i]))
    } else {
        None
    }
}

/// A dependency: a line under their header that gives a name, with the versions that
/// follow it up to line `n`.
pub open spec fn dep_at(lines: Seq<Seq<char>>, i: int, n: int) -> Option<Seq<char>> {
    if stands_under(lines, i, "Dependencies:"@) && names(lines[i]) && name_on(lines[i]).len() > 0 {
        Some(name_on(lines[i]) + version_on(lines[i]) + versions_from(lines, i + 1, n))
    } else {
        None
    }
}

/// A target: a line under their header that gives a name, with the type that follows
/// it up to line `n`.
pub open spec fn target_at(lines: Seq<Seq<char>>, i: int, n: int) -> Option<
    (Seq<char>, Seq<char>),
> {
    if stands_under(lines, i, "Targets:"@) && trimmed(lines[i]).len() > 0 && names(lines[i])
        && name_on(lines[i]).len() > 0 {
        Some((name_on(lines[i]), kind_from(lines, i + 1, n)))
    } else {
        None
    }
}

// ─── What follows a line ────────────────────────────────────────────────────

proof fn lemma_versions_extend(lines: Seq<Seq<char>>, j: int, n: int)
    requires
        0 <= j <= n < lines.len(),
    ensures
        (forall|k: int| j <= k < n ==> !ends_dep(#[trigger] lines[k])) ==> versions_from(
            lines,
            j,
            n + 1,
        ) == versions_from(lines, j, n) + (if ends_dep(lines[n]) {
            seq![]
        } else {
            version_on(lines[n])
        }),
        (exists|k: int| j <= k < n && ends_dep(#[trigger] lines[k])) ==> versions_from(
            lines,
            j,
            n + 1,
        ) == versions_from(lines, j, n),
    decreases n - j,
{
    if j == n {
        reveal_with_fuel(versions_from, 2);
        assert(versions_from(lines, j, n + 1) =~= versions_from(lines, j, n) + (if ends_dep(
            lines[n],
        ) {
            seq![]
        } else {
            version_on(lines[n])
        }));
    } else if !ends_dep(lines[j]) {
        lemma_versions_extend(lines, j + 1, n);
        if forall|k: int| j <= k < n ==> !ends_dep(#[trigger] lines[k]) {
            assert(versions_from(lines, j, n + 1) =~= versions_from(lines, j, n) + (if ends_dep(
                lines[n],
            ) {
                seq![]
            } else {
                version_on(lines[n])
            }));
        } else {
            let k = choose|k: int| j <= k < n && ends_dep(#[trigger] lines[k]);
            assert(j + 1 <= k);
        }
    }
}

proof fn lemma_kind_extends(lines: Seq<Seq<char>>, j: int, n: int)
    requires
        0 <= j <= n < lines.len(),
    ensures
        (forall|k: int| j <= k < n ==> !ends_target(#[trigger] lines[k])) ==> kind_from(
            lines,
            j,
            n + 1,
        ) == (if kind_from(lines, j, n).len() > 0 {
            kind_from(lines, j, n)
        } else if ends_target(lines[n]) {
            seq![]
        } else {
            kind_on(lines[n])
        }),
        (exists|k: int| j <= k < n && ends_target(#[trigger] lines[k])) ==> kind_from(
            lines,
            j,
            n + 1,
        ) == kind_from(lines, j, n),
    decreases n - j,
{
    if j == n {
        reveal_with_fuel(kind_from, 2);
        assert(kind_on(lines[n]).len() == 0 ==> kind_on(lines[n]) =~= seq![]);
    } else if !ends_target(lines[j]) {
        lemma_kind_extends(lines, j + 1, n);
        if !(forall|k: int| j <= k < n ==> !ends_target(#[trigger] lines[k])) {
            let k = choose|k: int| j <= k < n && ends_target(#[trigger] lines[k]);
            assert(j + 1 <= k);
        }
    }
}

/// What is picked up to `n` is what is picked before `o`, and at `o`, where nothing
/// is picked between the two.
proof fn lemma_last_pick<B>(n: nat, o: int, f: spec_fn(int) -> Option<B>)
    requires
        0 <= o < n,
        forall|i: int| o < i < n ==> #[trigger] f(i) is None,
    ensures
        picked_at(n, f) == picked_at(o as nat, f) + (match f(o) {
            Some(x) => seq![x],
            None => seq![],
        }),
    decreases n,
{
    let m = (n - 1) as nat;
    lemma_picked_at_next(m, f);
    if o < m {
        assert(f(m as int) is None);
        lemma_last_pick(m, o, f);
        assert(picked_at(n, f) =~= picked_at(m, f));
    }
}

proof fn lemma_no_pick<B>(n: nat, f: spec_fn(int) -> Option<B>)
    requires
        forall|i: int| 0 <= i < n ==> #[trigger] f(i) is None,
    ensures
        picked_at(n, f) == Seq::<B>::empty(),
    decreases n,
{
    if n > 0 {
        let m = (n - 1) as nat;
        lemma_picked_at_next(m, f);
        assert(f(m as int) is None);
        lemma_no_pick(m, f);
        assert(picked_at(n, f) =~= Seq::<B>::empty());
    } else {
        assert(picked_at(n, f) =~= Seq::<B>::empty());
    }
}

/// One more line: the dependencies that were closed stay as they are, and the open
/// one may get a version.
proof fn lemma_deps_extend(lines: Seq<Seq<char>>, n: int)
    requires
        0 <= n < lines.len(),
    ensures
        ({
            let before = picked_at(n as nat, |i: int| dep_at(lines, i, n));
            let after = picked_at((n + 1) as nat, |i: int| dep_at(lines, i, n + 1));
            let own = match dep_at(lines, n, n + 1) {
                Some(dep) => seq![dep],
                None => seq![],
            };
            match last_position(n, |j: int| ends_dep(lines[j])) {
                Some(o) => {
                    let earlier = picked_at(o as nat, |i: int| dep_at(lines, i, n));
                    match dep_at(lines, o, n) {
                        Some(dep) => before == earlier + seq![dep] && after == earlier + seq![
                            dep + if ends_dep(lines[n]) {
                                seq![]
                            } else {
                                version_on(lines[n])
                            },
                        ] + own,
                        None => before == earlier && after == earlier + own,
                    }
                },
                None => before == Seq::<Seq<char>>::empty() && after == own,
            }
        }),
{
    let f = |i: int| dep_at(lines, i, n);
    let g = |i: int| dep_at(lines, i, n + 1);
    let stop = |j: int| ends_dep(lines[j]);
    law_last_position(n, stop);
    lemma_picked_at_next(n as nat, g);
    match last_position(n, stop) {
        Some(o) => {
            assert forall|i: int| o < i < n implies (#[trigger] f(i)) is None by {
                assert(!stop(i));
            }
            assert forall|i: int| o < i < n implies (#[trigger] g(i)) is None by {
                assert(!stop(i));
            }
            lemma_last_pick(n as nat, o, f);
            lemma_last_pick(n as nat, o, g);
            assert forall|i: int| 0 <= i < o implies #[trigger] f(i) == g(i) by {
                assert(stop(o));
                lemma_versions_extend(lines, i + 1, n);
            }
            lemma_picked_at_same(o as nat, f, g);
            lemma_versions_extend(lines, o + 1, n);
            assert forall|k: int| o + 1 <= k < n implies !ends_dep(#[trigger] lines[k]) by {
                assert(!stop(k));
            }
            let earlier = picked_at(o as nat, f);
            if let Some(dep) = dep_at(lines, o, n) {
                let more = if ends_dep(lines[n]) {
                    seq![]
                } else {
                    version_on(lines[n])
                };
                assert(g(o) == Some(dep + more)) by {
                    assert(name_on(lines[o]) + version_on(lines[o]) + versions_from(
                        lines,
                        o + 1,
                        n + 1,
                    ) =~= dep + more);
                }
            } else {
                assert(picked_at(n as nat, f) =~= earlier);
                assert(picked_at(n as nat, g) =~= earlier);
            }
        },
        None => {
            assert forall|i: int| 0 <= i < n implies (#[trigger] f(i)) is None by {
                assert(!stop(i));
            }
            assert forall|i: int| 0 <= i < n implies (#[trigger] g(i)) is None by {
                assert(!stop(i));
            }
            lemma_no_pick(n as nat, f);
            lemma_no_pick(n as nat, g);
            let own = match dep_at(lines, n, n + 1) {
                Some(dep) => seq![dep],
                None => seq![],
            };
            assert(picked_at((n + 1) as nat, g) =~= own);
        },
    }
}

/// One more line: the targets that were closed stay as they are, and the open one
/// may get a type.
proof fn lemma_targets_extend(lines: Seq<Seq<char>>, n: int)
    requires
        0 <= n < lines.len(),
    ensures
        ({
            let before = picked_at(n as nat, |i: int| target_at(lines, i, n));
            let after = picked_at((n + 1) as nat, |i: int| target_at(lines, i, n + 1));
            let own = match target_at(lines, n, n + 1) {
                Some(target) => seq![target],
                None => seq![],
            };
            match last_position(n, |j: int| ends_target(lines[j])) {
                Some(o) => {
                    let earlier = picked_at(o as nat, |i: int| target_at(lines, i, n));
                    match target_at(lines, o, n) {
                        Some(target) => before == earlier + seq![target] && after == earlier + seq![
                            (
                                target.0,
                                if target.1.len() > 0 {
                                    target.1
                                } else if ends_target(lines[n]) {
                                    seq![]
                                } else {
                                    kind_on(lines[n])
                                },
                            ),
                        ] + own,
                        None => before == earlier && after == earlier + own,
                    }
                },
                None => before == Seq::<(Seq<char>, Seq<char>)>::empty() && after == own,
            }
        }),
{
    let f = |i: int| target_at(lines, i, n);
    let g = |i: int| target_at(lines, i, n + 1);
    let stop = |j: int| ends_target(lines[j]);
    law_last_position(n, stop);
    lemma_picked_at_next(n as nat, g);
    match last_position(n, stop) {
        Some(o) => {
            assert forall|i: int| o < i < n implies (#[trigger] f(i)) is None by {
                assert(!stop(i));
            }
            assert forall|i: int| o < i < n implies (#[trigger] g(i)) is None by {
                assert(!stop(i));
            }
            lemma_last_pick(n as nat, o, f);
            lemma_last_pick(n as nat, o, g);
            assert forall|i: int| 0 <= i < o implies #[trigger] f(i) == g(i) by {
                assert(stop(o));
                lemma_kind_extends(lines, i + 1, n);
            }
            lemma_picked_at_same(o as nat, f, g);
            lemma_kind_extends(lines, o + 1, n);
            assert forall|k: int| o + 1 <= k < n implies !ends_target(#[trigger] lines[k]) by {
                assert(!stop(k));
            }
            let earlier = picked_at(o as nat, f);
            if target_at(lines, o, n) is None {
                assert(picked_at(n as nat, f) =~= earlier);
                assert(picked_at(n as nat, g) =~= earlier);
            }
        },
        None => {
            assert forall|i: int| 0 <= i < n implies (#[trigger] f(i)) is None by {
                assert(!stop(i));
            }
            assert forall|i: int| 0 <= i < n implies (#[trigger] g(i)) is None by {
                assert(!stop(i));
            }
            lemma_no_pick(n as nat, f);
            lemma_no_pick(n as nat, g);
            let own = match target_at(lines, n, n + 1) {
                Some(target) => seq![target],
                None => seq![],
            };
            assert(picked_at((n + 1) as nat, g) =~= own);
        },
    }
}

// ─── What has been read ─────────────────────────────────────────────────────

/// Whether the last name line is that of a dependency.
spec fn dep_is_open(lines: Seq<Seq<char>>, n: int) -> bool {
    match last_position(n, |j: int| ends_dep(lines[j])) {
        Some(o) => dep_at(lines, o, n) is Some,
        None => false,
    }
}

/// Whether the last name line is that of a target, and no empty line follows it.
spec fn target_is_open(lines: Seq<Seq<char>>, n: int) -> bool {
    match last_position(n, |j: int| ends_target(lines[j])) {
        Some(o) => target_at(lines, o, n) is Some,
        None => false,
    }
}

spec fn reads_section(lines: Seq<Seq<char>>, n: int, s: PackageView) -> bool {
    s.section == (match last_before(lines, n, |line: Seq<char>| heads(line)) {
        Some(head) => section_of(trimmed(head)),
        None => Section::Top,
    })
}

spec fn reads_name(lines: Seq<Seq<char>>, n: int, s: PackageView) -> bool {
    let found = picked_at(n as nat, |i: int| package_at(lines, i));
    if found.len() > 0 {
        s.name == found[0] && s.name.len() > 0
    } else {
        s.name == Seq::<char>::empty()
    }
}

spec fn reads_deps(lines: Seq<Seq<char>>, n: int, s: PackageView) -> bool {
    let deps = picked_at(n as nat, |i: int| dep_at(lines, i, n));
    if dep_is_open(lines, n) {
        &&& s.section is Dependencies
        &&& s.dep.len() > 0
        &&& deps == s.deps.push(s.dep)
    } else {
        deps == s.deps && s.dep == Seq::<char>::empty()
    }
}

spec fn reads_targets(lines: Seq<Seq<char>>, n: int, s: PackageView) -> bool {
    let targets = picked_at(n as nat, |i: int| target_at(lines, i, n));
    if target_is_open(lines, n) {
        &&& s.section is Targets
        &&& s.target.len() > 0
        &&& targets == s.targets.push((s.target, s.target_kind))
    } else {
        targets == s.targets && s.target == Seq::<char>::empty()
    }
}

proof fn lemma_headers()
    ensures
        "Dependencies:"@ != "Products:"@,
        "Dependencies:"@ != "Targets:"@,
        "Products:"@ != "Targets:"@,
{
    reveal_strlit("Dependencies:");
    reveal_strlit("Products:");
    reveal_strlit("Targets:");
    assert("Dependencies:"@.len() == 13);
    assert("Products:"@.len() == 9);
    assert("Targets:"@.len() == 8);
}

/// What has been read after the first `n` lines.
proof fn lemma_read(lines: Seq<Seq<char>>, n: int)
    requires
        0 <= n <= lines.len(),
    ensures
        ({
            let s = package_read(lines.map_values(|line: Seq<char>| package_line(line)).take(n));
            &&& reads_section(lines, n, s)
            &&& reads_name(lines, n, s)
            &&& s.products == picked_at(n as nat, |i: int| product_at(lines, i))
            &&& reads_deps(lines, n, s)
            &&& reads_targets(lines, n, s)
        }),
    decreases n,
{
    let ls = lines.map_values(|line: Seq<char>| package_line(line));
    let s = package_read(ls.take(n));
    if n > 0 {
        let m = n - 1;
        let t = package_read(ls.take(m));
        lemma_read(lines, m);
        lemma_headers();
        assert(ls.take(n).drop_last() =~= ls.take(m));
        assert(ls.take(n).last() == package_line(lines[m]));
        lemma_picked_at_next(m as nat, |i: int| package_at(lines, i));
        lemma_picked_at_next(m as nat, |i: int| product_at(lines, i));
        assert(s.products =~= picked_at(n as nat, |i: int| product_at(lines, i)));
        assert(s.name.len() == 0 ==> s.name =~= Seq::<char>::empty());
        lemma_deps_step(lines, m, t, s);
        lemma_targets_step(lines, m, t, s);
    } else {
        assert(ls.take(0) =~= Seq::<PackageLine<Seq<char>, FoundText>>::empty());
        assert(picked_at(0, |i: int| package_at(lines, i)).len() == 0);
        assert(picked_at(0, |i: int| product_at(lines, i)) =~= seq![]);
        assert(picked_at(0, |i: int| dep_at(lines, i, 0)) =~= seq![]);
        assert(picked_at(0, |i: int| target_at(lines, i, 0)) =~= seq![]);
    }
}

proof fn lemma_same_last<A>(a: Seq<A>, x: A, b: Seq<A>, y: A)
    requires
        a + seq![x] == b.push(y),
    ensures
        a == b,
        x == y,
{
    assert((a + seq![x]).drop_last() =~= a);
    assert(b.push(y).drop_last() =~= b);
    assert((a + seq![x]).last() == x);
    assert(b.push(y).last() == y);
}

proof fn lemma_deps_step(lines: Seq<Seq<char>>, m: int, t: PackageView, s: PackageView)
    requires
        0 <= m < lines.len(),
        reads_section(lines, m, t),
        reads_deps(lines, m, t),
        s == package_step(t, package_line(lines[m])),
    ensures
        reads_deps(lines, m + 1, s),
{
    lemma_headers();
    lemma_deps_extend(lines, m);
    let deps = picked_at((m + 1) as nat, |i: int| dep_at(lines, i, m + 1));
    let l = lines[m];
    let none = Seq::<char>::empty();
    law_last_position(m, |j: int| ends_dep(lines[j]));
    assert(version_on(l) =~= none + version_on(l));
    if let Some(o) = last_position(m, |j: int| ends_dep(lines[j])) {
        assert(dep_at(lines, o, m) is Some == dep_at(lines, o, m + 1) is Some);
        if let Some(dep) = dep_at(lines, o, m) {
            let earlier = picked_at(o as nat, |i: int| dep_at(lines, i, m));
            lemma_same_last(earlier, dep, t.deps, t.dep);
        }
    }
    assert(dep_at(lines, m, m + 1) is Some ==> dep_at(lines, m, m + 1)->0 =~= name_on(l)
        + version_on(l));
    assert(t.dep + none =~= t.dep);
    if dep_is_open(lines, m) {
        if heads(l) {
            assert(deps =~= s.deps);
        } else if names(l) {
            if name_on(l).len() > 0 {
                assert(s.dep =~= name_on(l) + version_on(l));
                assert(deps =~= s.deps.push(s.dep));
            } else {
                assert(s.dep =~= none);
                assert(deps =~= s.deps);
            }
        } else {
            assert(s.dep =~= t.dep + version_on(l));
            assert(deps =~= s.deps.push(s.dep));
        }
    } else {
        if stands_under(lines, m, "Dependencies:"@) && names(l) && name_on(l).len() > 0 {
            assert(s.dep =~= name_on(l) + version_on(l));
            assert(deps =~= s.deps.push(s.dep));
        } else {
            assert(s.dep =~= none);
            assert(deps =~= s.deps);
        }
    }
}

proof fn lemma_targets_step(lines: Seq<Seq<char>>, m: int, t: PackageView, s: PackageView)
    requires
        0 <= m < lines.len(),
        reads_section(lines, m, t),
        reads_targets(lines, m, t),
        s == package_step(t, package_line(lines[m])),
    ensures
        reads_targets(lines, m + 1, s),
{
    lemma_headers();
    lemma_targets_extend(lines, m);
    let targets = picked_at((m + 1) as nat, |i: int| target_at(lines, i, m + 1));
    let l = lines[m];
    let none = Seq::<char>::empty();
    law_last_position(m, |j: int| ends_target(lines[j]));
    if let Some(o) = last_position(m, |j: int| ends_target(lines[j])) {
        assert(target_at(lines, o, m) is Some == target_at(lines, o, m + 1) is Some);
        if let Some(target) = target_at(lines, o, m) {
            let earlier = picked_at(o as nat, |i: int| target_at(lines, i, m));
            lemma_same_last(earlier, target, t.targets, (t.target, t.target_kind));
        }
    }
    assert(target_at(lines, m, m + 1) is Some ==> target_at(lines, m, m + 1)->0 == (
        name_on(l),
        none,
    ));
    assert(t.target_kind.len() == 0 ==> t.target_kind =~= none);
    if target_is_open(lines, m) {
        if heads(l) || trimmed(l).len() == 0 {
            assert(targets =~= s.targets);
        } else if names(l) {
            if name_on(l).len() > 0 {
                assert(targets =~= s.targets.push((s.target, s.target_kind)));
            } else {
                assert(s.target =~= none);
                assert(targets =~= s.targets);
            }
        } else {
            assert(targets =~= s.targets.push((s.target, s.target_kind)));
        }
    } else {
        if stands_under(lines, m, "Targets:"@) && trimmed(l).len() > 0 && names(l)
            && name_on(l).len() > 0 {
            assert(targets =~= s.targets.push((s.target, s.target_kind)));
        } else {
            assert(s.target =~= none);
            assert(targets =~= s.targets);
        }
    }
}

// ─── Laws ───────────────────────────────────────────────────────────────────

/// The description is what the lines give: the first name of a package before any
/// header; a product for each name under the header of the products; a dependency
/// for each name under the header of the dependencies, with the versions up to the
/// next name or header; and a target for each name under the header of the targets,
/// with the first type up to the next name, header or empty line. All of it is in
/// the order of the output.
pub proof fn law_package_described_by_lines(output: Seq<char>)
    ensures
        ({
            let lines = lines_of(without_ansi(output));
            let n = lines.len() as int;
            let p = package_described(package_lines(without_ansi(output)));
            let found = picked_at(lines.len(), |i: int| package_at(lines, i));
            &&& p.name == (if found.len() > 0 {
                found[0]
            } else {
                seq![]
            })
            &&& p.products == picked_at(lines.len(), |i: int| product_at(lines, i))
            &&& p.deps == picked_at(lines.len(), |i: int| dep_at(lines, i, n))
            &&& p.targets == picked_at(lines.len(), |i: int| target_at(lines, i, n))
        }),
{
    let lines = lines_of(without_ansi(output));
    let ls = package_lines(without_ansi(output));
    lemma_read(lines, lines.len() as int);
    assert(ls.take(ls.len() as int) =~= ls);
}

/// A name under the header of the dependencies with a version behind it, and no
/// other name, version or header between them, is a dependency: the name, and the
/// version in brackets. The dependency ends at line `e`: at the next name or header,
/// or at the end of the output, and no other version stands before that.
pub proof fn law_package_dependency_version(output: Seq<char>, a: int, b: int, e: int)
    requires
        ({
            let lines = lines_of(without_ansi(output));
            &&& 0 <= a < b < e <= lines.len()
            &&& stands_under(lines, a, "Dependencies:"@)
            &&& regex_matches(INDENTED_NAME@, lines[a])
            &&& trimmed(group_text(regex_captures(INDENTED_NAME@, lines[a]), 1)).len() > 0
            &&& regex_matches(INDENTED_VERSION@, lines[b])
            &&& forall|k: int|
                a < k < e ==> !heads(#[trigger] lines[k]) && !regex_matches(
                    INDENTED_NAME@,
                    lines[k],
                )
            &&& forall|k: int|
                a <= k < e && k != b ==> !regex_matches(INDENTED_VERSION@, #[trigger] lines[k])
            &&& e < lines.len() ==> heads(lines[e]) || regex_matches(INDENTED_NAME@, lines[e])
        }),
    ensures
        ({
            let lines = lines_of(without_ansi(output));
            package_described(package_lines(without_ansi(output))).deps.contains(
                trimmed(group_text(regex_captures(INDENTED_NAME@, lines[a]), 1)) + " ("@ + trimmed(
                    group_text(regex_captures(INDENTED_VERSION@, lines[b]), 1),
                ) + ")"@,
            )
        }),
{
    let lines = lines_of(without_ansi(output));
    let n = lines.len() as int;
    law_package_described_by_lines(output);
    lemma_no_versions(lines, b + 1, e, n);
    lemma_only_version(lines, a + 1, b, n);
    let none = Seq::<char>::empty();
    let name = name_on(lines[a]);
    let version = trimmed(group_text(regex_captures(INDENTED_VERSION@, lines[b]), 1));
    assert(version_on(lines[a]) =~= none);
    assert(name + none + (version_on(lines[b]) + none) =~= name + " ("@ + version + ")"@);
    let f = |i: int| dep_at(lines, i, n);
    assert(f(a) == Some(name + " ("@ + version + ")"@));
    lemma_picked_contains(n as nat, f, a);
}

proof fn lemma_no_versions(lines: Seq<Seq<char>>, j: int, e: int, n: int)
    requires
        0 <= j <= e <= n <= lines.len(),
        forall|k: int|
            j <= k < e ==> !ends_dep(#[trigger] lines[k]) && !regex_matches(
                INDENTED_VERSION@,
                lines[k],
            ),
        e < n ==> ends_dep(lines[e]),
    ensures
        versions_from(lines, j, n) == Seq::<char>::empty(),
    decreases e - j,
{
    if j < e {
        lemma_no_versions(lines, j + 1, e, n);
        assert(versions_from(lines, j, n) =~= Seq::<char>::empty());
    }
}

proof fn lemma_only_version(lines: Seq<Seq<char>>, j: int, b: int, n: int)
    requires
        0 <= j <= b < n <= lines.len(),
        forall|k: int|
            j <= k < b ==> !ends_dep(#[trigger] lines[k]) && !regex_matches(
                INDENTED_VERSION@,
                lines[k],
            ),
        !ends_dep(lines[b]),
    ensures
        versions_from(lines, j, n) == version_on(lines[b]) + versions_from(lines, b + 1, n),
    decreases b - j,
{
    if j < b {
        lemma_only_version(lines, j + 1, b, n);
        assert(versions_from(lines, j, n) =~= versions_from(lines, j + 1, n));
    }
}

proof fn lemma_picked_contains<B>(n: nat, f: spec_fn(int) -> Option<B>, i: int)
    requires
        0 <= i < n,
        f(i) is Some,
    ensures
        picked_at(n, f).contains(f(i)->0),
    decreases n,
{
    let m = (n - 1) as nat;
    lemma_picked_at_next(m, f);
    let all = picked_at(n, f);
    if i == m {
        assert(all[all.len() - 1] == f(i)->0);
    } else {
        lemma_picked_contains(m, f, i);
        let k = picked_at(m, f).index_of(f(i)->0);
        assert(all[k] == f(i)->0);
    }
}

/// The report gives the name of the package, and the dependencies, the products and
/// the targets, each with their number and only where there are any.
pub proof fn law_package_layout(p: PackageView)
    ensures
        package_report(p) == trimmed(
            "Package: "@ + p.name + "\n"@ + (if p.deps.len() > 0 {
                "Dependencies ("@ + decimal(p.deps.len()) + "): "@ + joined(p.deps, ", "@) + "\n"@
            } else {
                seq![]
            }) + (if p.products.len() > 0 {
                "Products ("@ + decimal(p.products.len()) + "): "@ + joined(p.products, ", "@)
                    + "\n"@
            } else {
                seq![]
            }) + (if p.targets.len() > 0 {
                "Targets ("@ + decimal(p.targets.len()) + "):\n"@ + p.targets.map_values(
                    |target: (Seq<char>, Seq<char>)|
                        "  "@ + target.0 + (if target.1.len() > 0 {
                            " ("@ + target.1 + ")\n"@
                        } else {
                            "\n"@
                        }),
                ).flatten()
            } else {
                seq![]
            }),
        ),
{
    lemma_targets_flat(p.targets);
}

proof fn lemma_targets_flat(ts: Seq<(Seq<char>, Seq<char>)>)
    ensures
        target_lines(ts) == ts.map_values(
            |target: (Seq<char>, Seq<char>)|
                "  "@ + target.0 + (if target.1.len() > 0 {
                    " ("@ + target.1 + ")\n"@
                } else {
                    "\n"@
                }),
        ).flatten(),
    decreases ts.len(),
{
    let write = |target: (Seq<char>, Seq<char>)|
        "  "@ + target.0 + (if target.1.len() > 0 {
            " ("@ + target.1 + ")\n"@
        } else {
            "\n"@
        });
    let written = ts.map_values(write);
    written.lemma_flatten_and_flatten_alt_are_equivalent();
    if ts.len() > 0 {
        lemma_targets_flat(ts.drop_last());
        written.drop_last().lemma_flatten_and_flatten_alt_are_equivalent();
        assert(written.drop_last() =~= ts.drop_last().map_values(write));
        assert(target_lines(ts) =~= target_lines(ts.drop_last()) + write(ts.last()));
    }
}

/// Whether a line is one that only a package description has.
pub open spec fn shows_package(line: Seq<char>) -> bool {
    trimmed(line) == "Dependencies:"@ || trimmed(line) == "Products:"@ || trimmed(line)
        == "Targets:"@ || regex_matches(PACKAGE_NAME@, line)
}

/// Output with a line that only a package description has is reported on, and so is
/// empty output. Other output comes back as it is, without the escape sequences and
/// the whitespace at its ends.
pub proof fn law_package_reported_or_passed_on(output: Seq<char>)
    ensures
        ({
            let clean = without_ansi(output);
            let lines = lines_of(clean);
            if trimmed(clean).len() == 0 || exists|i: int|
                0 <= i < lines.len() && shows_package(#[trigger] lines[i]) {
                swift_package_filtered(output) == package_report(
                    package_described(package_lines(clean)),
                )
            } else {
                swift_package_filtered(output) == trimmed(clean)
            }
        }),
{
    let clean = without_ansi(output);
    let lines = lines_of(clean);
    let ls = package_lines(clean);
    if exists|i: int| 0 <= i < lines.len() && shows_package(#[trigger] lines[i]) {
        let i = choose|i: int| 0 <= i < lines.len() && shows_package(#[trigger] lines[i]);
        assert(is_describe_marker(ls[i]));
    } else if any_describe_marker(ls) {
        let i = choose|i: int| 0 <= i < ls.len() && is_describe_marker(#[trigger] ls[i]);
        assert(shows_package(lines[i]));
    }
}

} // verus!
