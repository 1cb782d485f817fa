//! Source that keeps participating crates linked, and the list of crates that are
//! expected to take part.
use vstd::prelude::*;

use crate::names::{ascending, ascending_unique, NameSet};
use crate::reading::{joined_lists, within, within_brackets};
use crate::syntax::{literal_source, string_literal};
use crate::text::{chars_of, join, join_texts, less, less_total, less_transitive};

verus! {

/// A package name as a crate identifier: `_` in place of each `-`.
pub open spec fn identifier_of(package: Seq<char>) -> Seq<char> {
    Seq::new(
        package.len(),
        |i: int|
            if package[i] == '-' {
                '_'
            } else {
                package[i]
            },
    )
}

/// The crate identifier of a package.
pub fn crate_ident(package_name: &str) -> (res: String)
    ensures
        res@ == identifier_of(package_name@),
{
    let chars = chars_of(package_name);
    let mut out = String::new();
    let mut i: usize = 0;
    while i < chars.len()
        invariant
            chars@ == package_name@,
            i <= chars.len(),
            out@ == identifier_of(package_name@).take(i as int),
        decreases chars.len() - i,
    {
        if chars[i] == '-' {
            out.push('_');
        } else {
            out.push(chars[i]);
        }
        assert(out@ =~= identifier_of(package_name@).take(i + 1));
        i += 1;
    }
    assert(identifier_of(package_name@).take(i as int) =~= identifier_of(package_name@));
    out
}

/// The packages that take part, each once, ascending by name.
#[derive(Debug, PartialEq, Eq)]
pub struct ParticipatingSet {
    crates: NameSet,
}

impl View for ParticipatingSet {
    type V = Seq<Seq<char>>;

    /// The package names, ascending.
    closed spec fn view(&self) -> Seq<Seq<char>> {
        self.crates@
    }
}

impl ParticipatingSet {
    /// The empty set.
    pub fn new() -> (res: ParticipatingSet)
        ensures
            res@ == Seq::<Seq<char>>::empty(),
    {
        ParticipatingSet { crates: NameSet::new() }
    }

    /// Adds a package. Adding one that is there changes nothing.
    pub fn add(&mut self, package_name: &str)
        ensures
            ascending(final(self)@),
            forall|n: Seq<char>| #[trigger]
                final(self)@.contains(n) <==> old(self)@.contains(n) || n == package_name@,
    {
        self.crates.insert(package_name);
    }

    /// The set of the given packages.
    pub fn from_names(names: &[&str]) -> (res: ParticipatingSet)
        ensures
            ascending(res@),
            forall|n: Seq<char>| #[trigger]
                res@.contains(n) <==> names.deep_view().contains(n),
    {
        let mut set = ParticipatingSet::new();
        let mut i: usize = 0;
        while i < names.len()
            invariant
                i <= names@.len(),
                ascending(set@),
                forall|n: Seq<char>| #[trigger]
                    set@.contains(n) <==> names.deep_view().take(i as int).contains(n),
            decreases names@.len() - i,
        {
            let ghost before = set@;
            set.add(names[i]);
            proof {
                let shorter = names.deep_view().take(i as int);
                let longer = names.deep_view().take(i + 1);
                assert(longer =~= shorter.push(names@[i as int]@));
                assert forall|n: Seq<char>| #[trigger] set@.contains(n) <==> longer.contains(n) by {
                    if shorter.contains(n) {
                        let k = choose|k: int| 0 <= k < shorter.len() && shorter[k] == n;
                        assert(longer[k] == n);
                    }
                    if n == names@[i as int]@ {
                        assert(longer[i as int] == n);
                    }
                    if longer.contains(n) {
                        let k = choose|k: int| 0 <= k < longer.len() && longer[k] == n;
                        if k < i {
                            assert(shorter[k] == n);
                        }
                    }
                    assert(before.contains(n) <==> shorter.contains(n));
                }
            }
            i += 1;
        }
        assert(names.deep_view().take(i as int) =~= names.deep_view());
        set
    }

    /// The package names, ascending.
    pub fn names(&self) -> (res: Vec<&str>)
        ensures
            res.deep_view() == self@,
            ascending(self@),
    {
        self.crates.names()
    }

    /// Whether nothing takes part.
    pub fn is_empty(&self) -> (res: bool)
        ensures
            res == (self@.len() == 0),
    {
        self.crates.len() == 0
    }

    /// How many packages take part.
    pub fn len(&self) -> (res: usize)
        ensures
            res == self@.len(),
    {
        self.crates.len()
    }
}

impl Clone for ParticipatingSet {
    fn clone(&self) -> (res: ParticipatingSet)
        ensures
            res@ == self@,
    {
        ParticipatingSet { crates: self.crates.clone() }
    }
}

impl Default for ParticipatingSet {
    fn default() -> (res: ParticipatingSet)
        ensures
            res@ == Seq::<Seq<char>>::empty(),
    {
        ParticipatingSet::new()
    }
}

/// One `use` line for each package.
pub open spec fn use_lines(packages: Seq<Seq<char>>) -> Seq<Seq<char>> {
    Seq::new(packages.len(), |i: int| "use "@ + identifier_of(packages[i]) + " as _;"@)
}

/// The identifier of a package is its name with `_` in place of each `-`, and nothing else is
/// changed.
pub proof fn identifier_keeps_the_name(package: Seq<char>)
    ensures
        identifier_of(package).len() == package.len(),
        !identifier_of(package).contains('-'),
        forall|i: int|
            0 <= i < package.len() ==> (if package[i] == '-' {
                #[trigger] identifier_of(package)[i] == '_'
            } else {
                identifier_of(package)[i] == package[i]
            }),
{
    assert forall|i: int| 0 <= i < identifier_of(package).len() implies identifier_of(package)[i]
        != '-' by {}
}

/// The module that links each of `packages`.
pub open spec fn force_link_source(packages: Seq<Seq<char>>) -> Seq<char> {
    "#[doc(hidden)] mod __leaf_force_link { "@ + join(use_lines(packages), " "@) + " }"@
}

/// One source tag for each package.
pub open spec fn tag_rows(packages: Seq<Seq<char>>) -> Seq<Seq<char>> {
    Seq::new(
        packages.len(),
        |i: int| "::leaf_core::SourceTag("@ + literal_source(packages[i]) + ")"@,
    )
}

/// The constant list of source tags of `packages`.
pub open spec fn manifest_source(packages: Seq<Seq<char>>) -> Seq<char> {
    "#[doc(hidden)] pub const __LEAF_EXPECTED_MANIFEST: &[::leaf_core::SourceTag] = &["@ + join(
        tag_rows(packages),
        ", "@,
    ) + "];"@
}

/// Each package is linked once, in the order of the list, under its identifier, and each is expected
/// under its own name.
pub proof fn packages_are_linked_and_expected(packages: Seq<Seq<char>>)
    ensures
        within(force_link_source(packages), "#[doc(hidden)] mod __leaf_force_link { "@, " }"@) matches Some(
            uses,
        ) && crate::reading::lists(
            uses,
            Seq::new(packages.len(), |i: int| "use "@ + identifier_of(packages[i]) + " as _;"@),
            " "@,
        ),
        crate::reading::encloses(
            manifest_source(packages),
            "#[doc(hidden)] pub const __LEAF_EXPECTED_MANIFEST: &[::leaf_core::SourceTag] = &["@,
            Seq::new(
                packages.len(),
                |i: int| "::leaf_core::SourceTag("@ + literal_source(packages[i]) + ")"@,
            ),
            "];"@,
        ),
{
    let uses = Seq::new(packages.len(), |i: int| "use "@ + identifier_of(packages[i]) + " as _;"@);
    let tags = Seq::new(
        packages.len(),
        |i: int| "::leaf_core::SourceTag("@ + literal_source(packages[i]) + ")"@,
    );
    assert(uses =~= use_lines(packages));
    assert(tags =~= tag_rows(packages));
    joined_lists(uses, " "@);
    within_brackets("#[doc(hidden)] mod __leaf_force_link { "@, join(uses, " "@), " }"@);
    crate::reading::list_is_enclosed(
        "#[doc(hidden)] pub const __LEAF_EXPECTED_MANIFEST: &[::leaf_core::SourceTag] = &["@,
        tags,
        "];"@,
    );
}

/// Prints the module that links each participating crate.
pub fn emit_force_link(set: &ParticipatingSet) -> (res: String)
    ensures
        res@ == force_link_source(set@),
{
    let names = set.names();
    let mut lines: Vec<String> = Vec::new();
    let mut i: usize = 0;
    while i < names.len()
        invariant
            names.deep_view() == set@,
            i <= names@.len(),
            lines@.len() == i,
            forall|k: int| 0 <= k < i ==> (#[trigger] lines@[k])@ == use_lines(set@)[k],
        decreases names@.len() - i,
    {
        let ident = crate_ident(names[i]);
        assert(names.deep_view()[i as int] == names@[i as int]@);
        lines.push("use ".to_string().concat(ident.as_str()).concat(" as _;"));
        i += 1;
    }
    assert(lines.deep_view() =~= use_lines(set@));
    let body = join_texts(&lines, " ");
    "#[doc(hidden)] mod __leaf_force_link { ".to_string().concat(body.as_str()).concat(" }")
}

/// Prints the list of source tags that are expected.
pub fn emit_expected_manifest(set: &ParticipatingSet) -> (res: String)
    ensures
        res@ == manifest_source(set@),
{
    let names = set.names();
    let mut rows: Vec<String> = Vec::new();
    let mut i: usize = 0;
    while i < names.len()
        invariant
            names.deep_view() == set@,
            i <= names@.len(),
            rows@.len() == i,
            forall|k: int| 0 <= k < i ==> (#[trigger] rows@[k])@ == tag_rows(set@)[k],
        decreases names@.len() - i,
    {
        let tag = string_literal(names[i]);
        assert(names.deep_view()[i as int] == names@[i as int]@);
        rows.push("::leaf_core::SourceTag(".to_string().concat(tag.as_str()).concat(")"));
        i += 1;
    }
    assert(rows.deep_view() =~= tag_rows(set@));
    let list = join_texts(&rows, ", ");
    "#[doc(hidden)] pub const __LEAF_EXPECTED_MANIFEST: &[::leaf_core::SourceTag] = &["
        .to_string().concat(list.as_str()).concat("];")
}

/// Prints both.
pub fn emit(set: &ParticipatingSet) -> (res: String)
    ensures
        res@ == force_link_source(set@) + " "@ + manifest_source(set@),
{
    let link = emit_force_link(set);
    let manifest = emit_expected_manifest(set);
    link.concat(" ").concat(manifest.as_str())
}

/// Which source is printed depends on the members alone: sets of the same packages
/// print the same.
pub proof fn same_members_print_the_same(a: Seq<Seq<char>>, b: Seq<Seq<char>>)
    requires
        ascending(a),
        ascending(b),
        forall|n: Seq<char>| a.contains(n) <==> b.contains(n),
    ensures
        force_link_source(a) == force_link_source(b),
        manifest_source(a) == manifest_source(b),
{
    ascending_unique(a, b);
}

/// `s` lists `names`, ascending and each once.
pub open spec fn lists(s: Seq<Seq<char>>, names: Seq<Seq<char>>) -> bool {
    ascending(s) && forall|n: Seq<char>| #[trigger] s.contains(n) <==> names.contains(n)
}

/// `names`, ascending and each once.
pub open spec fn listing(names: Seq<Seq<char>>) -> Seq<Seq<char>> {
    choose|s: Seq<Seq<char>>| lists(s, names)
}

/// There is one way to list names.
pub proof fn listing_is(s: Seq<Seq<char>>, names: Seq<Seq<char>>)
    requires
        lists(s, names),
    ensures
        listing(names) == s,
{
    let t = listing(names);
    assert(lists(t, names));
    assert forall|n: Seq<char>| s.contains(n) <==> t.contains(n) by {
        assert(s.contains(n) <==> names.contains(n));
        assert(t.contains(n) <==> names.contains(n));
    }
    ascending_unique(s, t);
}

/// Listing names, and one more.
pub proof fn listing_with(s: Seq<Seq<char>>, t: Seq<Seq<char>>, names: Seq<Seq<char>>, name: Seq<char>)
    requires
        lists(s, names),
        ascending(t),
        forall|n: Seq<char>| #[trigger] t.contains(n) <==> s.contains(n) || n == name,
    ensures
        lists(t, names.push(name)),
{
    let more = names.push(name);
    assert forall|n: Seq<char>| #[trigger] t.contains(n) <==> more.contains(n) by {
        if names.contains(n) {
            let k = choose|k: int| 0 <= k < names.len() && names[k] == n;
            assert(more[k] == n);
        }
        if n == name {
            assert(more[names.len() as int] == n);
        }
        if more.contains(n) {
            let k = choose|k: int| 0 <= k < more.len() && more[k] == n;
            if k < names.len() {
                assert(names[k] == n);
            }
        }
        assert(s.contains(n) <==> names.contains(n));
    }
}

/// An ascending list with one more name.
spec fn inserted(s: Seq<Seq<char>>, name: Seq<char>) -> Seq<Seq<char>>
    decreases s.len(),
{
    if s.len() == 0 || less(name, s[0]) {
        seq![name] + s
    } else if name == s[0] {
        s
    } else {
        seq![s[0]] + inserted(s.drop_first(), name)
    }
}

/// An ascending list with one more name is ascending, and holds that name besides.
proof fn inserted_is_listed(s: Seq<Seq<char>>, name: Seq<char>)
    requires
        ascending(s),
    ensures
        ascending(inserted(s, name)),
        forall|n: Seq<char>| #[trigger]
            inserted(s, name).contains(n) <==> s.contains(n) || n == name,
    decreases s.len(),
{
    let t = inserted(s, name);
    if s.len() == 0 || less(name, s[0]) {
        assert forall|i: int, j: int| 0 <= i < j < t.len() implies less(
            #[trigger] t[i],
            #[trigger] t[j],
        ) by {
            if i == 0 {
                assert(t[j] == s[j - 1]);
                if j > 1 {
                    less_transitive(name, s[0], s[j - 1]);
                }
            } else {
                assert(t[i] == s[i - 1] && t[j] == s[j - 1]);
            }
        }
        assert forall|n: Seq<char>| #[trigger] t.contains(n) <==> s.contains(n) || n == name by {
            if s.contains(n) {
                let k = choose|k: int| 0 <= k < s.len() && s[k] == n;
                assert(t[k + 1] == n);
            }
            if n == name {
                assert(t[0] == n);
            }
            if t.contains(n) {
                let k = choose|k: int| 0 <= k < t.len() && t[k] == n;
                if k > 0 {
                    assert(s[k - 1] == n);
                }
            }
        }
    } else if name == s[0] {
        assert(s.contains(s[0]));
    } else {
        let rest = s.drop_first();
        let more = inserted(rest, name);
        inserted_is_listed(rest, name);
        less_total(name, s[0]);
        assert forall|i: int, j: int| 0 <= i < j < t.len() implies less(
            #[trigger] t[i],
            #[trigger] t[j],
        ) by {
            assert(t[j] == more[j - 1]);
            if i == 0 {
                assert(more.contains(more[j - 1]));
                if rest.contains(t[j]) {
                    let k = choose|k: int| 0 <= k < rest.len() && rest[k] == t[j];
                    assert(s[k + 1] == t[j]);
                }
            } else {
                assert(t[i] == more[i - 1]);
            }
        }
        assert forall|n: Seq<char>| #[trigger] t.contains(n) <==> s.contains(n) || n == name by {
            assert(more.contains(n) <==> rest.contains(n) || n == name);
            if s.contains(n) {
                let k = choose|k: int| 0 <= k < s.len() && s[k] == n;
                if k > 0 {
                    assert(rest[k - 1] == n);
                } else {
                    assert(t[0] == n);
                }
            }
            if more.contains(n) {
                let k = choose|k: int| 0 <= k < more.len() && more[k] == n;
                assert(t[k + 1] == n);
            }
            if rest.contains(n) {
                let k = choose|k: int| 0 <= k < rest.len() && rest[k] == n;
                assert(s[k + 1] == n);
            }
            if t.contains(n) {
                let k = choose|k: int| 0 <= k < t.len() && t[k] == n;
                if k > 0 {
                    assert(more[k - 1] == n);
                } else {
                    assert(s.contains(s[0]));
                }
            }
        }
    }
}

/// Names can always be listed: the listing of names lists them.
pub proof fn listing_exists(names: Seq<Seq<char>>)
    ensures
        lists(listing(names), names),
    decreases names.len(),
{
    if names.len() == 0 {
        assert(lists(Seq::empty(), names));
    } else {
        let fewer = names.drop_last();
        listing_exists(fewer);
        let s = listing(fewer);
        let t = inserted(s, names.last());
        inserted_is_listed(s, names.last());
        listing_with(s, t, fewer, names.last());
        assert(fewer.push(names.last()) =~= names);
        assert(lists(t, names));
    }
}

/// The set of the given packages.
pub fn participating(names: &[String]) -> (res: ParticipatingSet)
    ensures
        lists(res@, names.deep_view()),
{
    let ghost all = names.deep_view();
    let mut set = ParticipatingSet::new();
    let mut i: usize = 0;
    assert(all.take(0) =~= Seq::<Seq<char>>::empty());
    while i < names.len()
        invariant
            all == names.deep_view(),
            i <= names@.len(),
            lists(set@, all.take(i as int)),
        decreases names@.len() - i,
    {
        let ghost before = set@;
        set.add(names[i].as_str());
        proof {
            listing_with(before, set@, all.take(i as int), names@[i as int]@);
            assert(all.take(i as int).push(names@[i as int]@) =~= all.take(i + 1));
        }
        i += 1;
    }
    assert(all.take(i as int) =~= all);
    set
}

} // verus!
