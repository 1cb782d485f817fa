//! Annotations that are composed of other annotations: flattening them into one view,
//! and attributes that are aliases of one another.
use vstd::prelude::*;

use crate::map::{Copied, NameMap};
use crate::reading::{joined_lists, lists, within};
use crate::syntax::{literal_source, string_literal};
use crate::text::{bool_source, bool_text, copy_texts, join, join_texts, str_eq};

verus! {

/// The value of an attribute.
#[derive(Debug, PartialEq, Eq)]
pub enum AttrValue {
    /// A truth value.
    Bool(bool),
    /// A number.
    Int(i64),
    /// A text.
    Str(String),
    /// A path, as it is written.
    Path(String),
    /// A list of values.
    List(Vec<AttrValue>),
}

/// What an [`AttrValue`] stands for.
pub ghost enum Value {
    Bool(bool),
    Int(int),
    Str(Seq<char>),
    Path(Seq<char>),
    List(Seq<Value>),
}

/// The value that `v` stands for.
pub open spec fn value_of(v: AttrValue) -> Value
    decreases v,
{
    match v {
        AttrValue::Bool(b) => Value::Bool(b),
        AttrValue::Int(i) => Value::Int(i as int),
        AttrValue::Str(s) => Value::Str(s@),
        AttrValue::Path(s) => Value::Path(s@),
        AttrValue::List(items) => Value::List(
            Seq::new(
                items@.len(),
                |i: int|
                    if 0 <= i < items@.len() {
                        value_of(items@[i])
                    } else {
                        arbitrary()
                    },
            ),
        ),
    }
}

impl View for AttrValue {
    type V = Value;

    open spec fn view(&self) -> Value {
        value_of(*self)
    }
}

/// A value that stands for the same as `value`.
fn copy_value(value: &AttrValue) -> (res: AttrValue)
    ensures
        res@ == value@,
    decreases value,
{
    match value {
        AttrValue::Bool(b) => AttrValue::Bool(*b),
        AttrValue::Int(i) => AttrValue::Int(*i),
        AttrValue::Str(s) => AttrValue::Str(s.clone()),
        AttrValue::Path(s) => AttrValue::Path(s.clone()),
        AttrValue::List(items) => {
            let mut copies: Vec<AttrValue> = Vec::new();
            let mut i: usize = 0;
            while i < items.len()
                invariant
                    value == AttrValue::List(*items),
                    i <= items.len(),
                    copies@.len() == i,
                    forall|k: int| 0 <= k < i ==> (#[trigger] copies@[k])@ == items@[k]@,
                decreases items.len() - i,
            {
                assert(decreases_to!(value => value->List_0));
                copies.push(copy_value(&items[i]));
                i += 1;
            }
            let res = AttrValue::List(copies);
            assert(res@->List_0 =~= value@->List_0);
            res
        },
    }
}

impl Copied for AttrValue {
    fn copied(&self) -> (res: AttrValue) {
        copy_value(self)
    }
}

impl Clone for AttrValue {
    fn clone(&self) -> (res: AttrValue)
        ensures
            res@ == self@,
    {
        copy_value(self)
    }
}

/// Whether two values stand for the same.
fn same_value(a: &AttrValue, b: &AttrValue) -> (res: bool)
    ensures
        res == (a@ == b@),
    decreases a,
{
    match (a, b) {
        (AttrValue::Bool(x), AttrValue::Bool(y)) => *x == *y,
        (AttrValue::Int(x), AttrValue::Int(y)) => *x == *y,
        (AttrValue::Str(x), AttrValue::Str(y)) => str_eq(x.as_str(), y.as_str()),
        (AttrValue::Path(x), AttrValue::Path(y)) => str_eq(x.as_str(), y.as_str()),
        (AttrValue::List(xs), AttrValue::List(ys)) => {
            if xs.len() != ys.len() {
                assert(a@->List_0.len() != b@->List_0.len());
                return false;
            }
            let mut i: usize = 0;
            while i < xs.len()
                invariant
                    a == AttrValue::List(*xs),
                    b == AttrValue::List(*ys),
                    xs@.len() == ys@.len(),
                    i <= xs.len(),
                    forall|k: int| 0 <= k < i ==> (#[trigger] xs@[k])@ == ys@[k]@,
                decreases xs.len() - i,
            {
                assert(decreases_to!(a => a->List_0));
                if !same_value(&xs[i], &ys[i]) {
                    assert(a@->List_0[i as int] != b@->List_0[i as int]);
                    return false;
                }
                i += 1;
            }
            assert(a@->List_0 =~= b@->List_0);
            true
        },
        _ => false,
    }
}

/// The declaration that an attribute is an alias.
#[derive(Debug, PartialEq, Eq)]
pub struct AliasFor {
    /// The attribute that is an alias.
    pub from_attr: String,
    /// The annotation whose attribute it stands for, or `None` for its own annotation.
    pub target_marker: Option<String>,
    /// The attribute it stands for.
    pub target_attr: String,
}

/// What an [`AliasFor`] stands for.
pub ghost struct Alias {
    pub from: Seq<char>,
    pub marker: Option<Seq<char>>,
    pub target: Seq<char>,
}

impl DeepView for AliasFor {
    type V = Alias;

    open spec fn deep_view(&self) -> Alias {
        Alias {
            from: self.from_attr@,
            marker: self.target_marker.deep_view(),
            target: self.target_attr@,
        }
    }
}

impl Clone for AliasFor {
    fn clone(&self) -> (res: AliasFor)
        ensures
            res.deep_view() == self.deep_view(),
    {
        AliasFor {
            from_attr: self.from_attr.clone(),
            target_marker: match &self.target_marker {
                Some(marker) => Some(marker.clone()),
                None => None,
            },
            target_attr: self.target_attr.clone(),
        }
    }
}

/// An annotation, with the annotations it is composed of.
#[derive(Debug)]
pub struct Annotation {
    /// The path of its marker.
    pub path: String,
    /// The attributes that are set.
    pub attrs: NameMap<AttrValue>,
    /// The defaults of attributes.
    pub defaults: NameMap<AttrValue>,
    /// The aliases among its attributes.
    pub aliases: Vec<AliasFor>,
    /// The annotations it is composed of.
    pub meta: Vec<Annotation>,
}

/// What an [`Annotation`] stands for.
pub ghost struct Ann {
    pub path: Seq<char>,
    pub attrs: Map<Seq<char>, Value>,
    pub defaults: Map<Seq<char>, Value>,
    pub aliases: Seq<Alias>,
    pub meta: Seq<Ann>,
}

/// The annotation that `a` stands for.
pub open spec fn ann_of(a: Annotation) -> Ann
    decreases a,
{
    Ann {
        path: a.path@,
        attrs: a.attrs@,
        defaults: a.defaults@,
        aliases: a.aliases.deep_view(),
        meta: Seq::new(
            a.meta@.len(),
            |i: int|
                if 0 <= i < a.meta@.len() {
                    ann_of(a.meta@[i])
                } else {
                    arbitrary()
                },
        ),
    }
}

impl View for Annotation {
    type V = Ann;

    open spec fn view(&self) -> Ann {
        ann_of(*self)
    }
}

impl Clone for Annotation {
    fn clone(&self) -> (res: Annotation)
        ensures
            res@ == self@,
    {
        copy_annotation(self)
    }
}

impl Default for Annotation {
    fn default() -> (res: Annotation)
        ensures
            res@ == (Ann {
                path: Seq::empty(),
                attrs: Map::empty(),
                defaults: Map::empty(),
                aliases: Seq::empty(),
                meta: Seq::empty(),
            }),
    {
        let res = Annotation::new("");
        proof {
            reveal_strlit("");
        }
        assert(res@.path =~= Seq::<char>::empty());
        res
    }
}

/// An annotation that stands for the same as `a`.
fn copy_annotation(a: &Annotation) -> (res: Annotation)
    ensures
        res@ == a@,
    decreases a,
{
    let mut meta: Vec<Annotation> = Vec::new();
    let mut i: usize = 0;
    while i < a.meta.len()
        invariant
            i <= a.meta.len(),
            meta@.len() == i,
            forall|k: int| 0 <= k < i ==> (#[trigger] meta@[k])@ == a.meta@[k]@,
        decreases a.meta.len() - i,
    {
        assert(decreases_to!(a => a.meta));
        meta.push(copy_annotation(&a.meta[i]));
        i += 1;
    }
    let res = Annotation {
        path: a.path.clone(),
        attrs: a.attrs.clone(),
        defaults: a.defaults.clone(),
        aliases: copy_aliases(&a.aliases),
        meta,
    };
    assert(res@.meta =~= a@.meta);
    res
}

impl Annotation {
    /// An annotation with nothing but its path.
    pub fn new(path: &str) -> (res: Annotation)
        ensures
            res@ == (Ann {
                path: path@,
                attrs: Map::empty(),
                defaults: Map::empty(),
                aliases: Seq::empty(),
                meta: Seq::empty(),
            }),
    {
        let res = Annotation {
            path: path.to_string(),
            attrs: NameMap::new(),
            defaults: NameMap::new(),
            aliases: Vec::new(),
            meta: Vec::new(),
        };
        assert(res@.aliases =~= Seq::<Alias>::empty());
        assert(res@.meta =~= Seq::<Ann>::empty());
        res
    }

    /// This annotation with an attribute set.
    pub fn with_attr(self, key: &str, value: AttrValue) -> (res: Annotation)
        ensures
            res@ == (Ann { attrs: self@.attrs.insert(key@, value@), ..self@ }),
    {
        let mut attrs = self.attrs;
        attrs.insert(key, value);
        let res = Annotation {
            path: self.path,
            attrs,
            defaults: self.defaults,
            aliases: self.aliases,
            meta: self.meta,
        };
        assert(res@.meta =~= self@.meta);
        res
    }

    /// This annotation with the default of an attribute.
    pub fn with_default(self, key: &str, value: AttrValue) -> (res: Annotation)
        ensures
            res@ == (Ann { defaults: self@.defaults.insert(key@, value@), ..self@ }),
    {
        let mut defaults = self.defaults;
        defaults.insert(key, value);
        let res = Annotation {
            path: self.path,
            attrs: self.attrs,
            defaults,
            aliases: self.aliases,
            meta: self.meta,
        };
        assert(res@.meta =~= self@.meta);
        res
    }

    /// This annotation with one more alias.
    pub fn with_alias(self, alias: AliasFor) -> (res: Annotation)
        ensures
            res@ == (Ann { aliases: self@.aliases.push(alias.deep_view()), ..self@ }),
    {
        let mut aliases = self.aliases;
        aliases.push(alias);
        let res = Annotation {
            path: self.path,
            attrs: self.attrs,
            defaults: self.defaults,
            aliases,
            meta: self.meta,
        };
        assert(res@.aliases =~= self@.aliases.push(alias.deep_view()));
        assert(res@.meta =~= self@.meta);
        res
    }

    /// This annotation composed of one more annotation.
    pub fn with_meta(self, meta: Annotation) -> (res: Annotation)
        ensures
            res@ == (Ann { meta: self@.meta.push(meta@), ..self@ }),
    {
        let mut all = self.meta;
        all.push(meta);
        let res = Annotation {
            path: self.path,
            attrs: self.attrs,
            defaults: self.defaults,
            aliases: self.aliases,
            meta: all,
        };
        assert(res@.meta =~= self@.meta.push(meta@));
        res
    }
}

/// How many annotations `a` is made of, itself among them.
pub open spec fn size(a: Ann) -> nat
    decreases a,
{
    1 + size_all(a.meta)
}

/// How many annotations those in `level` are made of.
pub open spec fn size_all(level: Seq<Ann>) -> nat
    decreases level,
{
    if level.len() == 0 {
        0
    } else {
        size_all(level.drop_last()) + size(level.last())
    }
}

/// The annotations that those in `level` are directly composed of.
pub open spec fn next_level(level: Seq<Ann>) -> Seq<Ann>
    decreases level.len(),
{
    if level.len() == 0 {
        Seq::empty()
    } else {
        next_level(level.drop_last()) + level.last().meta
    }
}

/// Sizes of lists that follow one another add up.
pub proof fn size_all_adds(a: Seq<Ann>, b: Seq<Ann>)
    ensures
        size_all(a + b) == size_all(a) + size_all(b),
    decreases b.len(),
{
    if b.len() == 0 {
        assert(a + b =~= a);
    } else {
        size_all_adds(a, b.drop_last());
        assert((a + b).drop_last() =~= a + b.drop_last());
    }
}

/// A level is larger than the next one, by the annotations that stand in it.
pub proof fn next_level_is_smaller(level: Seq<Ann>)
    ensures
        size_all(level) == size_all(next_level(level)) + level.len(),
    decreases level.len(),
{
    if level.len() > 0 {
        next_level_is_smaller(level.drop_last());
        size_all_adds(next_level(level.drop_last()), level.last().meta);
        assert(size(level.last()) == 1 + size_all(level.last().meta));
    }
}

/// `level`, the level below it, and so on while there is anything in them.
pub open spec fn levels(level: Seq<Ann>) -> Seq<Seq<Ann>>
    decreases size_all(level),
{
    if level.len() == 0 {
        Seq::empty()
    } else {
        proof {
            next_level_is_smaller(level);
        }
        seq![level] + levels(next_level(level))
    }
}

/// The annotations in `level`, each with the depth of the level.
pub open spec fn at_depth(level: Seq<Ann>, depth: nat) -> Seq<(nat, Ann)> {
    Seq::new(level.len(), |i: int| (depth, level[i]))
}

/// The annotations in `levels`, level by level, each with its depth.
pub open spec fn visits(levels: Seq<Seq<Ann>>) -> Seq<(nat, Ann)>
    decreases levels.len(),
{
    if levels.len() == 0 {
        Seq::empty()
    } else {
        visits(levels.drop_last()) + at_depth(levels.last(), (levels.len() - 1) as nat)
    }
}

/// `root` and all that it is composed of, the nearest first, each with its distance.
pub open spec fn closure(root: Ann) -> Seq<(nat, Ann)> {
    visits(levels(seq![root]))
}

/// The distance at which the marker `path` is first met.
pub open spec fn first_depth(met: Seq<(nat, Ann)>, path: Seq<char>) -> Option<nat>
    decreases met.len(),
{
    if met.len() == 0 {
        None
    } else {
        match first_depth(met.drop_last(), path) {
            Some(depth) => Some(depth),
            None => if met.last().1.path == path {
                Some(met.last().0)
            } else {
                None
            },
        }
    }
}

/// The markers in the order in which they are met, each once.
pub open spec fn markers(met: Seq<(nat, Ann)>) -> Seq<Seq<char>>
    decreases met.len(),
{
    if met.len() == 0 {
        Seq::empty()
    } else {
        let before = markers(met.drop_last());
        if first_depth(met.drop_last(), met.last().1.path) is Some {
            before
        } else {
            before.push(met.last().1.path)
        }
    }
}

/// A place where an attribute can have its value from: the distance, and 0 for an
/// attribute that is set or 1 for a default. The lesser place wins.
pub type Rank = (nat, nat);

/// `a` wins over `b`.
pub open spec fn nearer(a: Rank, b: Rank) -> bool {
    a.0 < b.0 || (a.0 == b.0 && a.1 < b.1)
}

/// The winner of `best` and what `from` has at `key`, where `from` stands at `rank`.
pub open spec fn offer(
    best: Option<(Rank, Value)>,
    rank: Rank,
    from: Map<Seq<char>, Value>,
    key: Seq<char>,
) -> Option<(Rank, Value)> {
    if from.contains_key(key) && (best is None || nearer(rank, (best->0).0)) {
        Some((rank, from[key]))
    } else {
        best
    }
}

/// The place and the value that win for `key`: those of the least place, and of the
/// first met where several stand at it.
pub open spec fn winner(met: Seq<(nat, Ann)>, key: Seq<char>) -> Option<(Rank, Value)>
    decreases met.len(),
{
    if met.len() == 0 {
        None
    } else {
        let (depth, ann) = met.last();
        let best = winner(met.drop_last(), key);
        offer(offer(best, (depth, 0), ann.attrs, key), (depth, 1), ann.defaults, key)
    }
}

/// The distances of the markers.
pub open spec fn distances(met: Seq<(nat, Ann)>) -> Map<Seq<char>, usize> {
    Map::new(
        |path: Seq<char>| first_depth(met, path) is Some,
        |path: Seq<char>| first_depth(met, path)->0 as usize,
    )
}

/// The attributes with the values that win.
pub open spec fn attributes(met: Seq<(nat, Ann)>) -> Map<Seq<char>, Value> {
    Map::new(
        |key: Seq<char>| winner(met, key) is Some,
        |key: Seq<char>| (winner(met, key)->0).1,
    )
}

/// The flattened view of a composed annotation.
#[derive(Debug, PartialEq, Eq)]
pub struct MergedAnnotation {
    /// The markers, the nearest first, each once.
    pub markers: Vec<String>,
    /// The distance of each marker.
    pub distances: NameMap<usize>,
    /// The attributes with the values that win.
    pub attrs: NameMap<AttrValue>,
}

/// What a [`MergedAnnotation`] stands for.
pub ghost struct Merged {
    pub markers: Seq<Seq<char>>,
    pub distances: Map<Seq<char>, usize>,
    pub attrs: Map<Seq<char>, Value>,
}

impl View for MergedAnnotation {
    type V = Merged;

    open spec fn view(&self) -> Merged {
        Merged {
            markers: self.markers.deep_view(),
            distances: self.distances@,
            attrs: self.attrs@,
        }
    }
}

/// The flattened view of `root`.
pub open spec fn merged(root: Ann) -> Merged {
    let met = closure(root);
    Merged { markers: markers(met), distances: distances(met), attrs: attributes(met) }
}

/// What references to annotations stand for.
spec fn anns(refs: Seq<&Annotation>) -> Seq<Ann> {
    Seq::new(refs.len(), |i: int| ann_of(*refs[i]))
}

/// What levels of references to annotations stand for.
spec fn ann_levels(levels: Seq<Vec<&Annotation>>) -> Seq<Seq<Ann>> {
    Seq::new(levels.len(), |i: int| anns(levels[i]@))
}

/// The annotations that those in `level` are directly composed of.
fn level_below<'a>(level: &Vec<&'a Annotation>) -> (res: Vec<&'a Annotation>)
    ensures
        anns(res@) == next_level(anns(level@)),
{
    let mut below: Vec<&'a Annotation> = Vec::new();
    let mut i: usize = 0;
    assert(anns(below@) =~= next_level(anns(level@).take(0)));
    while i < level.len()
        invariant
            i <= level.len(),
            anns(below@) == next_level(anns(level@).take(i as int)),
        decreases level.len() - i,
    {
        let ann: &'a Annotation = level[i];
        let ghost before = anns(below@);
        let mut j: usize = 0;
        assert(before + ann@.meta.take(0) =~= before);
        while j < ann.meta.len()
            invariant
                j <= ann.meta.len(),
                ann@.meta.len() == ann.meta@.len(),
                anns(below@) == before + ann@.meta.take(j as int),
            decreases ann.meta.len() - j,
        {
            let ghost so_far = anns(below@);
            below.push(&ann.meta[j]);
            assert(anns(below@) =~= so_far.push(ann@.meta[j as int]));
            assert(anns(below@) =~= before + ann@.meta.take(j + 1));
            j += 1;
        }
        proof {
            let next = anns(level@).take(i + 1);
            assert(next.drop_last() =~= anns(level@).take(i as int));
            assert(next.last() == ann@);
            assert(ann@.meta.take(j as int) =~= ann@.meta);
        }
        i += 1;
    }
    assert(anns(level@).take(i as int) =~= anns(level@));
    below
}

/// `root`, what it is directly composed of, and so on.
fn levels_of<'a>(root: &'a Annotation) -> (res: Vec<Vec<&'a Annotation>>)
    ensures
        ann_levels(res@) == levels(seq![root@]),
{
    let mut all: Vec<Vec<&'a Annotation>> = Vec::new();
    let mut level: Vec<&'a Annotation> = Vec::new();
    level.push(root);
    assert(anns(level@) =~= seq![root@]);
    assert(ann_levels(all@) + levels(anns(level@)) =~= levels(seq![root@]));
    while level.len() > 0
        invariant
            levels(seq![root@]) == ann_levels(all@) + levels(anns(level@)),
        decreases size_all(anns(level@)),
    {
        let below = level_below(&level);
        let ghost before = ann_levels(all@);
        let ghost here = anns(level@);
        proof {
            next_level_is_smaller(here);
        }
        all.push(level);
        assert(ann_levels(all@) =~= before.push(here));
        assert(before + (seq![here] + levels(next_level(here))) =~= ann_levels(all@) + levels(
            next_level(here),
        ));
        level = below;
    }
    assert(ann_levels(all@) + levels(anns(level@)) =~= ann_levels(all@));
    all
}

/// Puts what `from` has, at the given place, into `attrs` wherever that place wins.
fn consider_attrs(
    attrs: &mut NameMap<AttrValue>,
    ranks: &mut NameMap<(usize, u8)>,
    from: &NameMap<AttrValue>,
    depth: usize,
    tier: u8,
    Ghost(best): Ghost<spec_fn(Seq<char>) -> Option<(Rank, Value)>>,
)
    requires
        holds_best(old(attrs)@, old(ranks)@, best),
    ensures
        holds_best(
            final(attrs)@,
            final(ranks)@,
            |key: Seq<char>| offer(best(key), (depth as nat, tier as nat), from@, key),
        ),
{
    let n = from.len();
    let ghost keys = from.keys();
    let ghost rank: Rank = (depth as nat, tier as nat);
    let mut i: usize = 0;
    while i < n
        invariant
            i <= n,
            n == keys.len(),
            keys == from.keys(),
            rank == (depth as nat, tier as nat),
            forall|k: Seq<char>| #[trigger] keys.contains(k) <==> from@.contains_key(k),
            crate::names::ascending(keys),
            holds_best(
                attrs@,
                ranks@,
                |key: Seq<char>|
                    if keys.take(i as int).contains(key) {
                        offer(best(key), rank, from@, key)
                    } else {
                        best(key)
                    },
            ),
        decreases n - i,
    {
        let (key, value) = from.entry(i);
        let ghost before = |key: Seq<char>|
            if keys.take(i as int).contains(key) {
                offer(best(key), rank, from@, key)
            } else {
                best(key)
            };
        let ghost after = |key: Seq<char>|
            if keys.take(i + 1).contains(key) {
                offer(best(key), rank, from@, key)
            } else {
                best(key)
            };
        proof {
            crate::names::ascending_no_duplicates(keys);
            assert(!keys.take(i as int).contains(key@)) by {
                if keys.take(i as int).contains(key@) {
                    let k = choose|k: int|
                        0 <= k < keys.take(i as int).len() && keys.take(i as int)[k] == key@;
                    assert(keys[k] == keys[i as int]);
                }
            }
            assert(keys.take(i + 1)[i as int] == key@);
            assert(before(key@) == best(key@));
            assert forall|k: Seq<char>| k != key@ implies before(k) == #[trigger] after(k) by {
                if keys.take(i as int).contains(k) {
                    let j = choose|j: int|
                        0 <= j < keys.take(i as int).len() && keys.take(i as int)[j] == k;
                    assert(keys.take(i + 1)[j] == k);
                }
                if keys.take(i + 1).contains(k) {
                    let longer = keys.take(i + 1);
                    let j = choose|j: int| 0 <= j < longer.len() && longer[j] == k;
                    assert(keys.take(i as int)[j] == k);
                }
            }
        }
        let wins = match ranks.get(key) {
            Some(r) => depth < r.0 || (depth == r.0 && tier < r.1),
            None => true,
        };
        if wins {
            attrs.insert(key, copy_value(value));
            ranks.insert(key, (depth, tier));
        }
        assert(holds_best(attrs@, ranks@, after));
        i += 1;
    }
    proof {
        assert(keys.take(n as int) =~= keys);
        let last = |key: Seq<char>|
            if keys.take(n as int).contains(key) {
                offer(best(key), rank, from@, key)
            } else {
                best(key)
            };
        let goal = |key: Seq<char>| offer(best(key), (depth as nat, tier as nat), from@, key);
        assert forall|k: Seq<char>| last(k) == #[trigger] goal(k) by {
            assert(keys.contains(k) <==> from@.contains_key(k));
        }
        assert(holds_best(attrs@, ranks@, goal));
    }
}

/// `attrs` and `ranks` hold the value and the place that `best` names for each key.
spec fn holds_best(
    attrs: Map<Seq<char>, Value>,
    ranks: Map<Seq<char>, (usize, u8)>,
    best: spec_fn(Seq<char>) -> Option<(Rank, Value)>,
) -> bool {
    forall|k: Seq<char>|
        #![trigger best(k)]
        {
            &&& attrs.contains_key(k) <==> best(k) is Some
            &&& ranks.contains_key(k) <==> best(k) is Some
            &&& best(k) is Some ==> attrs[k] == (best(k)->0).1 && (
                ranks[k].0 as nat,
                ranks[k].1 as nat,
            ) == (best(k)->0).0
        }
}

/// What has been met, with one more.
proof fn met_one_more(met: Seq<(nat, Ann)>, depth: nat, ann: Ann)
    ensures
        ({
            let more = met.push((depth, ann));
            &&& forall|p: Seq<char>|
                #![trigger first_depth(more, p)]
                first_depth(more, p) == (match first_depth(met, p) {
                    Some(d) => Some(d),
                    None => if ann.path == p {
                        Some(depth)
                    } else {
                        None
                    },
                })
            &&& markers(more) == (if first_depth(met, ann.path) is Some {
                markers(met)
            } else {
                markers(met).push(ann.path)
            })
            &&& forall|k: Seq<char>|
                #![trigger winner(more, k)]
                winner(more, k) == offer(
                    offer(winner(met, k), (depth, 0), ann.attrs, k),
                    (depth, 1),
                    ann.defaults,
                    k,
                )
        }),
{
    let more = met.push((depth, ann));
    assert(more.drop_last() =~= met);
    assert(more.last() == (depth, ann));
}

/// Flattens a composed annotation.
pub fn merge(root: &Annotation) -> (res: MergedAnnotation)
    ensures
        res@ == merged(root@),
{
    let all = levels_of(root);
    let mut found: Vec<String> = Vec::new();
    let mut depths: NameMap<usize> = NameMap::new();
    let mut attrs: NameMap<AttrValue> = NameMap::new();
    let mut ranks: NameMap<(usize, u8)> = NameMap::new();
    let ghost views = ann_levels(all@);
    let ghost mut met: Seq<(nat, Ann)> = Seq::empty();
    proof {
        assert(found.deep_view() =~= Seq::<Seq<char>>::empty());
        assert(depths@ =~= distances(met));
    }
    let mut i: usize = 0;
    while i < all.len()
        invariant
            views == ann_levels(all@),
            i <= all.len(),
            met == visits(views.take(i as int)),
            found.deep_view() == markers(met),
            depths@ == distances(met),
            holds_best(attrs@, ranks@, |k: Seq<char>| winner(met, k)),
        decreases all.len() - i,
    {
        let level = &all[i];
        let ghost here = anns(level@);
        let ghost earlier = met;
        let mut j: usize = 0;
        assert(earlier + at_depth(here, i as nat).take(0) =~= earlier);
        while j < level.len()
            invariant
                here == anns(level@),
                j <= level.len(),
                met == earlier + at_depth(here, i as nat).take(j as int),
                found.deep_view() == markers(met),
                depths@ == distances(met),
                holds_best(attrs@, ranks@, |k: Seq<char>| winner(met, k)),
            decreases level.len() - j,
        {
            let ann: &Annotation = level[j];
            let ghost more = met.push((i as nat, ann@));
            let ghost was = found.deep_view();
            proof {
                met_one_more(met, i as nat, ann@);
                assert(at_depth(here, i as nat).take(j + 1) =~= at_depth(here, i as nat).take(
                    j as int,
                ).push((i as nat, ann@)));
                assert(more =~= earlier + at_depth(here, i as nat).take(j + 1));
            }
            let is_new = match depths.get(ann.path.as_str()) {
                Some(_) => false,
                None => true,
            };
            if is_new {
                found.push(ann.path.clone());
                depths.insert(ann.path.as_str(), i);
                assert(found.deep_view() =~= was.push(ann@.path));
            }
            assert(depths@ =~= distances(more)) by {
                assert forall|p: Seq<char>| depths@.contains_key(p) <==> #[trigger] first_depth(
                    more,
                    p,
                ) is Some by {}
            }
            let ghost best = |k: Seq<char>| winner(met, k);
            let ghost set = |k: Seq<char>| offer(best(k), (i as nat, 0nat), ann@.attrs, k);
            consider_attrs(&mut attrs, &mut ranks, &ann.attrs, i, 0, Ghost(best));
            assert(holds_best(attrs@, ranks@, set)) by {
                let stated = |key: Seq<char>|
                    offer(best(key), (i as nat, 0u8 as nat), ann.attrs@, key);
                assert forall|k: Seq<char>| stated(k) == #[trigger] set(k) by {}
                assert(holds_best(attrs@, ranks@, stated));
            }
            consider_attrs(&mut attrs, &mut ranks, &ann.defaults, i, 1, Ghost(set));
            proof {
                let stated = |key: Seq<char>|
                    offer(set(key), (i as nat, 1u8 as nat), ann.defaults@, key);
                let goal = |k: Seq<char>| winner(more, k);
                assert(holds_best(attrs@, ranks@, stated));
                assert forall|k: Seq<char>| stated(k) == #[trigger] goal(k) by {}
                assert(holds_best(attrs@, ranks@, goal));
                met = more;
            }
            j += 1;
        }
        proof {
            assert(at_depth(here, i as nat).take(j as int) =~= at_depth(here, i as nat));
            let next = views.take(i + 1);
            assert(next.drop_last() =~= views.take(i as int));
            assert(next.last() == here);
        }
        i += 1;
    }
    proof {
        assert(views.take(i as int) =~= views);
        let best = |k: Seq<char>| winner(met, k);
        assert(attrs@ =~= attributes(met)) by {
            assert forall|k: Seq<char>| attrs@.contains_key(k) <==> winner(met, k) is Some by {
                assert(attrs@.contains_key(k) <==> best(k) is Some);
            }
            assert forall|k: Seq<char>| attrs@.contains_key(k) implies attrs@[k]
                == attributes(met)[k] by {
                assert(best(k) is Some);
            }
        }
    }
    MergedAnnotation { markers: found, distances: depths, attrs }
}

/// Where a marker is first met.
proof fn first_depth_is_first(met: Seq<(nat, Ann)>, path: Seq<char>)
    ensures
        match first_depth(met, path) {
            Some(depth) => exists|i: int|
                0 <= i < met.len() && (#[trigger] met[i]).1.path == path && met[i].0 == depth
                    && forall|j: int| 0 <= j < i ==> (#[trigger] met[j]).1.path != path,
            None => forall|i: int| 0 <= i < met.len() ==> (#[trigger] met[i]).1.path != path,
        },
    decreases met.len(),
{
    if met.len() > 0 {
        let before = met.drop_last();
        first_depth_is_first(before, path);
        assert(forall|j: int| 0 <= j < before.len() ==> before[j] == met[j]);
        match first_depth(before, path) {
            Some(depth) => {
                let i = choose|i: int|
                    0 <= i < before.len() && (#[trigger] before[i]).1.path == path && before[i].0
                        == depth && forall|j: int|
                        0 <= j < i ==> (#[trigger] before[j]).1.path != path;
                assert(met[i].1.path == path);
            },
            None => {
                let last = met.len() - 1;
                assert forall|j: int| 0 <= j < last implies (#[trigger] met[j]).1.path != path by {
                    assert(before[j].1.path != path);
                }
                assert(met[last] == met.last());
            },
        }
    }
}

/// The markers are those of the annotations that were met, each once.
pub proof fn markers_are_met_once(met: Seq<(nat, Ann)>)
    ensures
        markers(met).no_duplicates(),
        forall|p: Seq<char>|
            #[trigger] markers(met).contains(p) <==> first_depth(met, p) is Some,
    decreases met.len(),
{
    if met.len() > 0 {
        let before = met.drop_last();
        let path = met.last().1.path;
        markers_are_met_once(before);
        let was = markers(before);
        let now = markers(met);
        assert forall|p: Seq<char>| #[trigger] now.contains(p) <==> first_depth(
            met,
            p,
        ) is Some by {
            assert(was.contains(p) <==> first_depth(before, p) is Some);
            if first_depth(before, path) is None {
                if was.contains(p) {
                    let i = choose|i: int| 0 <= i < was.len() && was[i] == p;
                    assert(now[i] == p);
                }
                if p == path {
                    assert(now[was.len() as int] == p);
                }
                if now.contains(p) && p != path {
                    let i = choose|i: int| 0 <= i < now.len() && now[i] == p;
                    assert(was[i] == p);
                }
            }
        }
        if first_depth(before, path) is None {
            assert(!was.contains(path));
            assert forall|i: int, j: int|
                0 <= i < now.len() && 0 <= j < now.len() && i != j implies now[i] != now[j] by {
                if i == was.len() {
                    assert(was.contains(was[j]));
                } else if j == was.len() {
                    assert(was.contains(was[i]));
                }
            }
        }
    }
}

/// What is met later is no nearer.
proof fn visits_descend(levels: Seq<Seq<Ann>>)
    ensures
        forall|i: int|
            0 <= i < visits(levels).len() ==> (#[trigger] visits(levels)[i]).0 < levels.len(),
        forall|i: int, j: int|
            0 <= i <= j < visits(levels).len() ==> (#[trigger] visits(levels)[i]).0 <= (
            #[trigger] visits(levels)[j]).0,
    decreases levels.len(),
{
    if levels.len() > 0 {
        let before = visits(levels.drop_last());
        let all = visits(levels);
        visits_descend(levels.drop_last());
        assert forall|i: int| 0 <= i < all.len() implies (#[trigger] all[i]).0 < levels.len() by {
            if i < before.len() {
                assert(all[i] == before[i]);
            }
        }
        assert forall|i: int, j: int| 0 <= i <= j < all.len() implies (#[trigger] all[i]).0 <= (
        #[trigger] all[j]).0 by {
            if i < before.len() {
                assert(all[i] == before[i]);
            }
            if j < before.len() {
                assert(all[j] == before[j]);
            }
        }
    }
}

/// A marker is kept at its shortest distance: no annotation with that marker is nearer.
pub proof fn nearest_distance_is_kept(root: Ann, i: int)
    requires
        0 <= i < closure(root).len(),
    ensures
        merged(root).distances.contains_key(closure(root)[i].1.path),
        first_depth(closure(root), closure(root)[i].1.path)->0 <= closure(root)[i].0,
{
    let met = closure(root);
    let path = met[i].1.path;
    visits_descend(levels(seq![root]));
    first_depth_is_first(met, path);
    let k = choose|k: int|
        0 <= k < met.len() && (#[trigger] met[k]).1.path == path && met[k].0 == first_depth(
            met,
            path,
        )->0 && forall|j: int| 0 <= j < k ==> (#[trigger] met[j]).1.path != path;
    assert(k <= i);
}

/// The annotation itself comes first, at distance zero.
pub proof fn root_comes_first(root: Ann)
    ensures
        closure(root).len() > 0,
        closure(root)[0] == (0nat, root),
        merged(root).markers.len() > 0,
        merged(root).markers[0] == root.path,
        merged(root).distances.contains_key(root.path),
        first_depth(closure(root), root.path) == Some(0nat),
{
    let all = levels(seq![root]);
    assert(all[0] =~= seq![root]);
    first_visit(all);
    assert(visits(all)[0] == (0nat, root));
    let met = closure(root);
    prefix_markers(met);
    first_depth_is_first(met, root.path);
}

/// Visits begin with the first of the first level.
proof fn first_visit(all: Seq<Seq<Ann>>)
    requires
        all.len() > 0,
        all[0].len() > 0,
    ensures
        visits(all).len() > 0,
        visits(all)[0] == (0nat, all[0][0]),
    decreases all.len(),
{
    if all.len() > 1 {
        first_visit(all.drop_last());
        assert(all.drop_last()[0] == all[0]);
    } else {
        assert(visits(all.drop_last()) =~= Seq::<(nat, Ann)>::empty());
    }
}

/// The first marker is that of the first annotation met.
proof fn prefix_markers(met: Seq<(nat, Ann)>)
    requires
        met.len() > 0,
    ensures
        markers(met).len() > 0,
        markers(met)[0] == met[0].1.path,
    decreases met.len(),
{
    if met.len() > 1 {
        prefix_markers(met.drop_last());
    } else {
        assert(markers(met.drop_last()) =~= Seq::<Seq<char>>::empty());
        assert(first_depth(met.drop_last(), met[0].1.path) is None);
    }
}

/// The nearest declaration of an attribute wins: whatever is set or defaulted anywhere in
/// the composition, the value that is taken stands at a place that is no farther, and a
/// value that is set wins over a default at the same distance.
pub proof fn nearest_attribute_wins(met: Seq<(nat, Ann)>, key: Seq<char>, i: int)
    requires
        0 <= i < met.len(),
    ensures
        met[i].1.attrs.contains_key(key) ==> winner(met, key) is Some && !nearer(
            (met[i].0, 0),
            (winner(met, key)->0).0,
        ),
        met[i].1.defaults.contains_key(key) ==> winner(met, key) is Some && !nearer(
            (met[i].0, 1),
            (winner(met, key)->0).0,
        ),
    decreases met.len(),
{
    if i < met.len() - 1 {
        assert(met.drop_last()[i] == met[i]);
        nearest_attribute_wins(met.drop_last(), key, i);
    }
}

/// A value that is taken is declared somewhere in the composition, at the place that won.
pub proof fn attribute_is_declared(met: Seq<(nat, Ann)>, key: Seq<char>)
    requires
        winner(met, key) is Some,
    ensures
        exists|i: int|
            {
                &&& 0 <= i < met.len()
                &&& (#[trigger] met[i]).0 == ((winner(met, key)->0).0).0
                &&& ({
                    ||| ((winner(met, key)->0).0).1 == 0 && met[i].1.attrs.contains_key(key)
                        && met[i].1.attrs[key] == (winner(met, key)->0).1
                    ||| ((winner(met, key)->0).0).1 == 1 && met[i].1.defaults.contains_key(key)
                        && met[i].1.defaults[key] == (winner(met, key)->0).1
                })
            },
    decreases met.len(),
{
    if met.len() > 0 {
        let before = winner(met.drop_last(), key);
        let now = winner(met, key);
        if before is Some && now == before {
            attribute_is_declared(met.drop_last(), key);
            let i = choose|i: int|
                {
                    &&& 0 <= i < met.drop_last().len()
                    &&& (#[trigger] met.drop_last()[i]).0 == ((before->0).0).0
                    &&& ({
                        ||| ((before->0).0).1 == 0 && met.drop_last()[i].1.attrs.contains_key(key)
                            && met.drop_last()[i].1.attrs[key] == (before->0).1
                        ||| ((before->0).0).1 == 1 && met.drop_last()[i].1.defaults.contains_key(key)
                            && met.drop_last()[i].1.defaults[key] == (before->0).1
                    })
                };
            assert(met[i] == met.drop_last()[i]);
        } else {
            assert(met[met.len() - 1] == met.last());
        }
    }
}

/// What the first annotation sets wins.
proof fn first_setting_wins(met: Seq<(nat, Ann)>, key: Seq<char>)
    requires
        met.len() > 0,
        met[0].0 == 0,
        met[0].1.attrs.contains_key(key),
    ensures
        winner(met, key) == Some(((0nat, 0nat), met[0].1.attrs[key])),
    decreases met.len(),
{
    if met.len() > 1 {
        assert(met.drop_last()[0] == met[0]);
        first_setting_wins(met.drop_last(), key);
    } else {
        assert(winner(met.drop_last(), key) is None);
    }
}

/// An attribute that the annotation itself sets has that value, whatever it is composed of.
pub proof fn what_is_set_is_kept(root: Ann, key: Seq<char>)
    requires
        root.attrs.contains_key(key),
    ensures
        merged(root).attrs.contains_key(key),
        merged(root).attrs[key] == root.attrs[key],
{
    root_comes_first(root);
    first_setting_wins(closure(root), key);
}

/// An alias that cannot be.
#[derive(Clone, Debug, PartialEq, Eq)]
pub struct AliasError {
    /// The annotation that declares the alias.
    pub on_marker: String,
    /// The explanation for a reader.
    pub message: String,
}

impl AliasError {
    /// The annotation and the explanation in one message.
    pub fn full_message(&self) -> (res: String)
        ensures
            res@ == alias_message(self.on_marker@, self.message@),
    {
        "@AliasFor on `".to_string().concat(self.on_marker.as_str()).concat("`: ").concat(
            self.message.as_str(),
        )
    }
}

/// The message for an alias on `marker` that cannot be.
pub open spec fn alias_message(marker: Seq<char>, message: Seq<char>) -> Seq<char> {
    "@AliasFor on `"@ + marker + "`: "@ + message
}

/// Another alias sends the same attribute elsewhere.
pub open spec fn is_conflicting(aliases: Seq<Alias>, alias: Alias) -> bool {
    exists|i: int|
        0 <= i < aliases.len() && (#[trigger] aliases[i]).from == alias.from && (
        aliases[i].marker != alias.marker || aliases[i].target != alias.target)
}

/// The target of an alias within its annotation is an alias back.
pub open spec fn is_reciprocal(aliases: Seq<Alias>, alias: Alias) -> bool {
    exists|i: int|
        0 <= i < aliases.len() && (#[trigger] aliases[i]).marker is None && aliases[i].from
            == alias.target && aliases[i].target == alias.from
}

/// What is wrong with `alias` on `a`. An attribute is no alias of itself, and of no two
/// things. Two attributes of one annotation are aliases of each other or not at all, and
/// have no different defaults.
pub open spec fn alias_fault(a: Ann, alias: Alias) -> Option<Seq<char>> {
    if alias.marker is None && alias.from == alias.target {
        Some("attribute `"@ + alias.from + "` is aliased to itself"@)
    } else if is_conflicting(a.aliases, alias) {
        Some("attribute `"@ + alias.from + "` has conflicting @AliasFor targets"@)
    } else if alias.marker is None && !is_reciprocal(a.aliases, alias) {
        Some(
            "explicit alias `"@ + alias.from + "` -> `"@ + alias.target
                + "` is not reciprocal (the target must declare the mirror @AliasFor)"@,
        )
    } else if alias.marker is None && a.defaults.contains_key(alias.from)
        && a.defaults.contains_key(alias.target) && a.defaults[alias.from]
        != a.defaults[alias.target] {
        Some(
            "aliased attributes `"@ + alias.from + "` and `"@ + alias.target
                + "` declare different defaults"@,
        )
    } else {
        None
    }
}

/// An alias is at fault where it names itself, where another alias of the attribute leads elsewhere,
/// where an alias in its own annotation is not answered, and where the two have different defaults;
/// and nowhere else.
pub proof fn faulty_aliases_are_refused(a: Ann, alias: Alias)
    ensures
        alias_fault(a, alias) is Some <==> {
            ||| alias.marker is None && alias.from == alias.target
            ||| exists|i: int|
                0 <= i < a.aliases.len() && (#[trigger] a.aliases[i]).from == alias.from && (
                a.aliases[i].marker != alias.marker || a.aliases[i].target != alias.target)
            ||| alias.marker is None && !(exists|i: int|
                0 <= i < a.aliases.len() && (#[trigger] a.aliases[i]).marker is None
                    && a.aliases[i].from == alias.target && a.aliases[i].target == alias.from)
            ||| alias.marker is None && a.defaults.contains_key(alias.from) && a.defaults.contains_key(
                alias.target,
            ) && a.defaults[alias.from] != a.defaults[alias.target]
        },
{
}

/// `node` with `value` set at `key` wherever it is, or is composed of, the annotation
/// `marker`.
pub open spec fn forwarded(node: Ann, marker: Seq<char>, key: Seq<char>, value: Value) -> Ann
    decreases node,
{
    Ann {
        attrs: if node.path == marker {
            node.attrs.insert(key, value)
        } else {
            node.attrs
        },
        meta: Seq::new(
            node.meta.len(),
            |i: int|
                if 0 <= i < node.meta.len() {
                    forwarded(node.meta[i], marker, key, value)
                } else {
                    arbitrary()
                },
        ),
        ..node
    }
}

/// Each of `meta` with the value forwarded into it.
pub open spec fn forwarded_all(
    meta: Seq<Ann>,
    marker: Seq<char>,
    key: Seq<char>,
    value: Value,
) -> Seq<Ann> {
    Seq::new(meta.len(), |i: int| forwarded(meta[i], marker, key, value))
}

/// `out` after `alias` of `a`: where `a` sets the attribute, its value is set at the
/// target too, unless a target of the same annotation is set already.
pub open spec fn after_alias(a: Ann, out: Ann, alias: Alias) -> Result<Ann, (Seq<char>, Seq<char>)> {
    match alias_fault(a, alias) {
        Some(message) => Err((a.path, message)),
        None => if !a.attrs.contains_key(alias.from) {
            Ok(out)
        } else {
            match alias.marker {
                None => Ok(
                    Ann {
                        attrs: if out.attrs.contains_key(alias.target) {
                            out.attrs
                        } else {
                            out.attrs.insert(alias.target, a.attrs[alias.from])
                        },
                        ..out
                    },
                ),
                Some(marker) => Ok(
                    Ann {
                        meta: forwarded_all(
                            out.meta,
                            marker,
                            alias.target,
                            a.attrs[alias.from],
                        ),
                        ..out
                    },
                ),
            }
        },
    }
}

/// `out` after the first `n` aliases of `a`.
pub open spec fn after_aliases(a: Ann, out: Ann, n: nat) -> Result<Ann, (Seq<char>, Seq<char>)>
    decreases n,
{
    if n == 0 {
        Ok(out)
    } else {
        match after_aliases(a, out, (n - 1) as nat) {
            Ok(so_far) => after_alias(a, so_far, a.aliases[n - 1]),
            Err(e) => Err(e),
        }
    }
}

/// `a` with its aliases applied, and those of the annotations it is composed of before
/// them. An error is the marker and the message of the first alias that cannot be.
pub open spec fn applied(a: Ann) -> Result<Ann, (Seq<char>, Seq<char>)>
    decreases a,
{
    match applied_all(a.meta) {
        Ok(meta) => after_aliases(a, Ann { meta, ..a }, a.aliases.len()),
        Err(e) => Err(e),
    }
}

/// Each of `meta` with its aliases applied.
pub open spec fn applied_all(meta: Seq<Ann>) -> Result<Seq<Ann>, (Seq<char>, Seq<char>)>
    decreases meta,
{
    if meta.len() == 0 {
        Ok(Seq::empty())
    } else {
        match applied_all(meta.drop_last()) {
            Ok(done) => match applied(meta.last()) {
                Ok(one) => Ok(done.push(one)),
                Err(e) => Err(e),
            },
            Err(e) => Err(e),
        }
    }
}

/// A list of aliases that stand for the same.
fn copy_aliases(aliases: &Vec<AliasFor>) -> (res: Vec<AliasFor>)
    ensures
        res.deep_view() == aliases.deep_view(),
{
    let mut out: Vec<AliasFor> = Vec::new();
    let mut i: usize = 0;
    while i < aliases.len()
        invariant
            i <= aliases.len(),
            out@.len() == i,
            forall|k: int|
                0 <= k < i ==> (#[trigger] out@[k]).deep_view() == aliases@[k].deep_view(),
        decreases aliases.len() - i,
    {
        out.push(aliases[i].clone());
        i += 1;
    }
    assert(out.deep_view() =~= aliases.deep_view());
    out
}

/// `node` with `value` set at `key` wherever it is, or is composed of, `marker`.
fn forward_into(node: &Annotation, marker: &str, key: &str, value: &AttrValue) -> (res: Annotation)
    ensures
        res@ == forwarded(node@, marker@, key@, value@),
    decreases node,
{
    let mut attrs = node.attrs.clone();
    if str_eq(node.path.as_str(), marker) {
        attrs.insert(key, copy_value(value));
    }
    let mut meta: Vec<Annotation> = Vec::new();
    let mut i: usize = 0;
    while i < node.meta.len()
        invariant
            i <= node.meta.len(),
            meta@.len() == i,
            forall|k: int|
                0 <= k < i ==> (#[trigger] meta@[k])@ == forwarded(
                    node@.meta[k],
                    marker@,
                    key@,
                    value@,
                ),
        decreases node.meta.len() - i,
    {
        assert(decreases_to!(node => node.meta));
        meta.push(forward_into(&node.meta[i], marker, key, value));
        i += 1;
    }
    let res = Annotation {
        path: node.path.clone(),
        attrs,
        defaults: node.defaults.clone(),
        aliases: copy_aliases(&node.aliases),
        meta,
    };
    assert(res@.meta =~= forwarded(node@, marker@, key@, value@).meta);
    res
}

/// Each of `meta` with the value forwarded into it.
fn forward_into_meta(meta: &Vec<Annotation>, marker: &str, key: &str, value: &AttrValue) -> (res:
    Vec<Annotation>)
    ensures
        res@.len() == meta@.len(),
        forall|i: int|
            0 <= i < meta@.len() ==> (#[trigger] res@[i])@ == forwarded(
                meta@[i]@,
                marker@,
                key@,
                value@,
            ),
{
    let mut out: Vec<Annotation> = Vec::new();
    let mut i: usize = 0;
    while i < meta.len()
        invariant
            i <= meta.len(),
            out@.len() == i,
            forall|k: int|
                0 <= k < i ==> (#[trigger] out@[k])@ == forwarded(
                    meta@[k]@,
                    marker@,
                    key@,
                    value@,
                ),
        decreases meta.len() - i,
    {
        out.push(forward_into(&meta[i], marker, key, value));
        i += 1;
    }
    out
}

/// Whether two optional texts are the same.
fn same_marker(a: &Option<String>, b: &Option<String>) -> (res: bool)
    ensures
        res == (a.deep_view() == b.deep_view()),
{
    match (a, b) {
        (Some(x), Some(y)) => str_eq(x.as_str(), y.as_str()),
        (None, None) => true,
        _ => false,
    }
}

/// Whether another alias of `ann` sends the attribute of `alias` elsewhere.
fn has_conflict(ann: &Annotation, alias: &AliasFor) -> (res: bool)
    ensures
        res == is_conflicting(ann@.aliases, alias.deep_view()),
{
    let mut i: usize = 0;
    while i < ann.aliases.len()
        invariant
            i <= ann.aliases.len(),
            forall|k: int|
                0 <= k < i ==> !((#[trigger] ann@.aliases[k]).from == alias.from_attr@ && (
                ann@.aliases[k].marker != alias.target_marker.deep_view() || ann@.aliases[k].target
                    != alias.target_attr@)),
        decreases ann.aliases.len() - i,
    {
        let other = &ann.aliases[i];
        assert(ann@.aliases[i as int] == other.deep_view());
        let same_from = str_eq(other.from_attr.as_str(), alias.from_attr.as_str());
        let same_target = same_marker(&other.target_marker, &alias.target_marker) && str_eq(
            other.target_attr.as_str(),
            alias.target_attr.as_str(),
        );
        if same_from && !same_target {
            return true;
        }
        i += 1;
    }
    false
}

/// Whether the target of `alias` within `ann` is an alias back.
fn has_mirror(ann: &Annotation, alias: &AliasFor) -> (res: bool)
    ensures
        res == is_reciprocal(ann@.aliases, alias.deep_view()),
{
    let mut i: usize = 0;
    while i < ann.aliases.len()
        invariant
            i <= ann.aliases.len(),
            forall|k: int|
                0 <= k < i ==> !((#[trigger] ann@.aliases[k]).marker is None && ann@.aliases[k].from
                    == alias.target_attr@ && ann@.aliases[k].target == alias.from_attr@),
        decreases ann.aliases.len() - i,
    {
        let other = &ann.aliases[i];
        assert(ann@.aliases[i as int] == other.deep_view());
        if other.target_marker.is_none() && str_eq(
            other.from_attr.as_str(),
            alias.target_attr.as_str(),
        ) && str_eq(other.target_attr.as_str(), alias.from_attr.as_str()) {
            return true;
        }
        i += 1;
    }
    false
}

/// Refuses an alias that cannot be.
fn validate_alias(ann: &Annotation, alias: &AliasFor) -> (res: Result<(), AliasError>)
    ensures
        match alias_fault(ann@, alias.deep_view()) {
            Some(message) => res matches Err(e) && e.on_marker@ == ann@.path && e.message@
                == message,
            None => res is Ok,
        },
{
    let local = alias.target_marker.is_none();
    let from = alias.from_attr.as_str();
    let target = alias.target_attr.as_str();
    let fault: Option<String> = if local && str_eq(from, target) {
        Some("attribute `".to_string().concat(from).concat("` is aliased to itself"))
    } else if has_conflict(ann, alias) {
        Some("attribute `".to_string().concat(from).concat("` has conflicting @AliasFor targets"))
    } else if local && !has_mirror(ann, alias) {
        Some(
            "explicit alias `".to_string().concat(from).concat("` -> `").concat(target).concat(
                "` is not reciprocal (the target must declare the mirror @AliasFor)",
            ),
        )
    } else {
        let differ = match (ann.defaults.get(from), ann.defaults.get(target)) {
            (Some(a), Some(b)) => !same_value(a, b),
            _ => false,
        };
        if local && differ {
            Some(
                "aliased attributes `".to_string().concat(from).concat("` and `").concat(
                    target,
                ).concat("` declare different defaults"),
            )
        } else {
            None
        }
    };
    match fault {
        Some(message) => Err(AliasError { on_marker: ann.path.clone(), message }),
        None => Ok(()),
    }
}

/// A result of applying aliases as the contracts speak of it.
spec fn applied_outcome(res: Result<Annotation, AliasError>) -> Result<
    Ann,
    (Seq<char>, Seq<char>),
> {
    match res {
        Ok(ann) => Ok(ann@),
        Err(e) => Err((e.on_marker@, e.message@)),
    }
}

/// `ann` with all aliases applied.
fn apply_aliases(ann: &Annotation) -> (res: Result<Annotation, AliasError>)
    ensures
        applied_outcome(res) == applied(ann@),
    decreases ann,
{
    let mut meta: Vec<Annotation> = Vec::new();
    let mut i: usize = 0;
    let ghost all = ann@.meta;
    assert(all.take(0) =~= Seq::<Ann>::empty());
    assert(anns_of(meta@) =~= Seq::<Ann>::empty());
    while i < ann.meta.len()
        invariant
            all == ann@.meta,
            i <= ann.meta.len(),
            applied_all(all.take(i as int)) == Ok::<Seq<Ann>, (Seq<char>, Seq<char>)>(
                anns_of(meta@),
            ),
        decreases ann.meta.len() - i,
    {
        assert(decreases_to!(ann => ann.meta));
        let one = apply_aliases(&ann.meta[i]);
        proof {
            let next = all.take(i + 1);
            assert(next.drop_last() =~= all.take(i as int));
            assert(next.last() == ann.meta@[i as int]@);
        }
        match one {
            Ok(one) => {
                let ghost before = anns_of(meta@);
                meta.push(one);
                assert(anns_of(meta@) =~= before.push(one@));
            },
            Err(e) => {
                proof {
                    applied_all_fails(all, i as int + 1);
                }
                return Err(e);
            },
        }
        i += 1;
    }
    assert(all.take(i as int) =~= all);
    let mut out = Annotation {
        path: ann.path.clone(),
        attrs: ann.attrs.clone(),
        defaults: ann.defaults.clone(),
        aliases: copy_aliases(&ann.aliases),
        meta,
    };
    let ghost start = Ann { meta: anns_of(meta@), ..ann@ };
    assert(out@.meta =~= start.meta);
    let mut n: usize = 0;
    while n < ann.aliases.len()
        invariant
            applied(ann@) == after_aliases(ann@, start, ann@.aliases.len()),
            n <= ann.aliases.len(),
            ann@.aliases.len() == ann.aliases@.len(),
            after_aliases(ann@, start, n as nat) == Ok::<Ann, (Seq<char>, Seq<char>)>(out@),
        decreases ann.aliases.len() - n,
    {
        let alias = &ann.aliases[n];
        assert(ann@.aliases[n as int] == alias.deep_view());
        let ghost so_far = out@;
        match validate_alias(ann, alias) {
            Err(e) => {
                proof {
                    after_aliases_fails(ann@, start, n as nat + 1, ann@.aliases.len());
                }
                return Err(e);
            },
            Ok(()) => {},
        }
        match ann.attrs.get(alias.from_attr.as_str()) {
            None => {},
            Some(value) => match &alias.target_marker {
                None => {
                    let is_set = match out.attrs.get(alias.target_attr.as_str()) {
                        Some(_) => true,
                        None => false,
                    };
                    if !is_set {
                        let mut attrs = out.attrs;
                        attrs.insert(alias.target_attr.as_str(), copy_value(value));
                        out = Annotation {
                            path: out.path,
                            attrs,
                            defaults: out.defaults,
                            aliases: out.aliases,
                            meta: out.meta,
                        };
                        assert(out@.meta =~= so_far.meta);
                    }
                },
                Some(marker) => {
                    let meta = forward_into_meta(
                        &out.meta,
                        marker.as_str(),
                        alias.target_attr.as_str(),
                        value,
                    );
                    out = Annotation {
                        path: out.path,
                        attrs: out.attrs,
                        defaults: out.defaults,
                        aliases: out.aliases,
                        meta,
                    };
                    assert(out@.meta =~= forwarded_all(
                        so_far.meta,
                        marker@,
                        alias.target_attr@,
                        value@,
                    ));
                },
            },
        }
        n += 1;
    }
    Ok(out)
}

/// What annotations stand for.
spec fn anns_of(all: Seq<Annotation>) -> Seq<Ann> {
    Seq::new(all.len(), |i: int| ann_of(all[i]))
}

/// An error among the first annotations is the error of all.
proof fn applied_all_fails(meta: Seq<Ann>, n: int)
    requires
        0 <= n <= meta.len(),
        applied_all(meta.take(n)) is Err,
    ensures
        applied_all(meta) is Err,
        applied_all(meta)->Err_0 == applied_all(meta.take(n))->Err_0,
    decreases meta.len(),
{
    if n == meta.len() {
        assert(meta.take(n) =~= meta);
    } else {
        assert(meta.drop_last().take(n) =~= meta.take(n));
        applied_all_fails(meta.drop_last(), n);
    }
}

/// An error among the first aliases is the error of all.
proof fn after_aliases_fails(a: Ann, out: Ann, n: nat, m: nat)
    requires
        n <= m,
        after_aliases(a, out, n) is Err,
    ensures
        after_aliases(a, out, m) is Err,
        after_aliases(a, out, m)->Err_0 == after_aliases(a, out, n)->Err_0,
    decreases m,
{
    if n < m {
        after_aliases_fails(a, out, n, (m - 1) as nat);
    }
}

/// The flattened view of `root` with its aliases applied.
pub open spec fn resolved(root: Ann) -> Result<Merged, (Seq<char>, Seq<char>)> {
    match applied(root) {
        Ok(ann) => Ok(merged(ann)),
        Err(e) => Err(e),
    }
}

/// Applies all aliases, then flattens.
pub fn resolve(root: &Annotation) -> (res: Result<MergedAnnotation, AliasError>)
    ensures
        match resolved(root@) {
            Ok(view) => res matches Ok(all) && all@ == view,
            Err((marker, message)) => res matches Err(e) && e.on_marker@ == marker && e.message@
                == message,
        },
{
    match apply_aliases(root) {
        Ok(ann) => Ok(merge(&ann)),
        Err(e) => Err(e),
    }
}

/// No attribute is an alias anywhere in `a`.
pub open spec fn alias_free(a: Ann) -> bool
    decreases a,
{
    a.aliases.len() == 0 && forall|i: int| 0 <= i < a.meta.len() ==> alias_free(#[trigger] a.meta[i])
}

/// Where there are no aliases, resolving is flattening.
pub proof fn resolving_without_aliases(root: Ann)
    requires
        alias_free(root),
    ensures
        resolved(root) == Ok::<Merged, (Seq<char>, Seq<char>)>(merged(root)),
{
    alias_free_is_kept(root);
}

/// Where the first `n` aliases can be applied, nothing is wrong with them. What was set
/// stays, the targets within the annotation are set, and what is set beyond what was set is
/// the value of an alias.
proof fn aliases_set_targets(a: Ann, out: Ann, n: nat)
    requires
        n <= a.aliases.len(),
        after_aliases(a, out, n) is Ok,
    ensures
        forall|i: int| 0 <= i < n ==> alias_fault(a, #[trigger] a.aliases[i]) is None,
        forall|k: Seq<char>| #[trigger]
            out.attrs.contains_key(k) ==> (after_aliases(a, out, n)->Ok_0).attrs.contains_key(k)
                && (after_aliases(a, out, n)->Ok_0).attrs[k] == out.attrs[k],
        forall|i: int|
            0 <= i < n && (#[trigger] a.aliases[i]).marker is None && a.attrs.contains_key(
                a.aliases[i].from,
            ) ==> (after_aliases(a, out, n)->Ok_0).attrs.contains_key(a.aliases[i].target),
        forall|k: Seq<char>|
            (#[trigger] (after_aliases(a, out, n)->Ok_0).attrs.contains_key(k))
                && !out.attrs.contains_key(k) ==> exists|i: int|
                0 <= i < n && (#[trigger] a.aliases[i]).marker is None && a.aliases[i].target == k
                    && a.attrs.contains_key(a.aliases[i].from) && (after_aliases(
                    a,
                    out,
                    n,
                )->Ok_0).attrs[k] == a.attrs[a.aliases[i].from],
    decreases n,
{
    if n > 0 {
        let m = (n - 1) as nat;
        aliases_set_targets(a, out, m);
        let was = after_aliases(a, out, m)->Ok_0;
        let now = after_aliases(a, out, n)->Ok_0;
        let alias = a.aliases[n - 1];
        assert(after_alias(a, was, alias) == Ok::<Ann, (Seq<char>, Seq<char>)>(now));
        assert forall|k: Seq<char>|
            (#[trigger] now.attrs.contains_key(k)) && !out.attrs.contains_key(k) implies exists|
            i: int,
        |
            0 <= i < n && (#[trigger] a.aliases[i]).marker is None && a.aliases[i].target == k
                && a.attrs.contains_key(a.aliases[i].from) && now.attrs[k]
                == a.attrs[a.aliases[i].from] by {
            if was.attrs.contains_key(k) {
                let i = choose|i: int|
                    0 <= i < m && (#[trigger] a.aliases[i]).marker is None && a.aliases[i].target
                        == k && a.attrs.contains_key(a.aliases[i].from) && was.attrs[k]
                        == a.attrs[a.aliases[i].from];
                assert(a.aliases[i].target == k);
            } else {
                assert(a.aliases[n - 1].target == k);
            }
        }
    }
}

/// An alias within an annotation mirrors: where the attribute is set and its target is not,
/// the target comes out with the value that was set.
pub proof fn alias_mirrors(root: Ann, i: int)
    requires
        resolved(root) is Ok,
        0 <= i < root.aliases.len(),
        root.aliases[i].marker is None,
        root.attrs.contains_key(root.aliases[i].from),
    ensures
        (resolved(root)->Ok_0).attrs.contains_key(root.aliases[i].target),
        !root.attrs.contains_key(root.aliases[i].target) ==> (
        resolved(root)->Ok_0).attrs[root.aliases[i].target] == root.attrs[root.aliases[i].from],
{
    let alias = root.aliases[i];
    let key = alias.target;
    let start = Ann { meta: applied_all(root.meta)->Ok_0, ..root };
    let n = root.aliases.len();
    let whole = after_aliases(root, start, n)->Ok_0;
    assert(applied(root) == Ok::<Ann, (Seq<char>, Seq<char>)>(whole));
    aliases_set_targets(root, start, n);
    assert(whole.attrs.contains_key(key));
    what_is_set_is_kept(whole, key);
    if !root.attrs.contains_key(key) {
        let j = choose|j: int|
            0 <= j < n && (#[trigger] root.aliases[j]).marker is None && root.aliases[j].target
                == key && root.attrs.contains_key(root.aliases[j].from) && whole.attrs[key]
                == root.attrs[root.aliases[j].from];
        let other = root.aliases[j];
        assert(alias_fault(root, alias) is None);
        assert(alias_fault(root, other) is None);
        let p = choose|p: int|
            0 <= p < n && (#[trigger] root.aliases[p]).marker is None && root.aliases[p].from
                == alias.target && root.aliases[p].target == alias.from;
        let q = choose|q: int|
            0 <= q < n && (#[trigger] root.aliases[q]).marker is None && root.aliases[q].from
                == other.target && root.aliases[q].target == other.from;
        assert(alias_fault(root, root.aliases[p]) is None);
        assert(root.aliases[q].target == root.aliases[p].target);
    }
}

/// Wherever `node` is, or is composed of, the annotation `marker`, it has `value` set at
/// `key`.
spec fn carries(node: Ann, marker: Seq<char>, key: Seq<char>, value: Value) -> bool
    decreases node,
{
    &&& node.path == marker ==> node.attrs.contains_key(key) && node.attrs[key] == value
    &&& forall|i: int|
        0 <= i < node.meta.len() ==> carries(#[trigger] node.meta[i], marker, key, value)
}

/// Each of `level` carries the value.
spec fn all_carry(level: Seq<Ann>, marker: Seq<char>, key: Seq<char>, value: Value) -> bool {
    forall|i: int| 0 <= i < level.len() ==> carries(#[trigger] level[i], marker, key, value)
}

/// A value that is forwarded is carried, and stays so when another is forwarded elsewhere.
proof fn forwarding_carries(
    node: Ann,
    marker: Seq<char>,
    key: Seq<char>,
    value: Value,
    other: Seq<char>,
    at: Seq<char>,
    new: Value,
)
    ensures
        carries(forwarded(node, marker, key, value), marker, key, value),
        carries(node, marker, key, value) && (other != marker || at != key || new == value)
            ==> carries(forwarded(node, other, at, new), marker, key, value),
    decreases node,
{
    let one = forwarded(node, marker, key, value);
    let two = forwarded(node, other, at, new);
    assert forall|i: int| 0 <= i < one.meta.len() implies carries(
        #[trigger] one.meta[i],
        marker,
        key,
        value,
    ) by {
        forwarding_carries(node.meta[i], marker, key, value, other, at, new);
    }
    if carries(node, marker, key, value) && (other != marker || at != key || new == value) {
        assert forall|i: int| 0 <= i < two.meta.len() implies carries(
            #[trigger] two.meta[i],
            marker,
            key,
            value,
        ) by {
            assert(carries(node.meta[i], marker, key, value));
            forwarding_carries(node.meta[i], marker, key, value, other, at, new);
        }
    }
}

/// After the alias at `i`, what `a` is composed of carries its value.
proof fn aliases_carry(a: Ann, out: Ann, n: nat, i: int, marker: Seq<char>)
    requires
        0 <= i < n <= a.aliases.len(),
        after_aliases(a, out, n) is Ok,
        a.aliases[i].marker == Some(marker),
        a.attrs.contains_key(a.aliases[i].from),
        forall|k: int|
            0 <= k < a.aliases.len() && (#[trigger] a.aliases[k]).marker == Some(marker)
                && a.aliases[k].target == a.aliases[i].target ==> a.aliases[k].from
                == a.aliases[i].from,
    ensures
        all_carry(
            (after_aliases(a, out, n)->Ok_0).meta,
            marker,
            a.aliases[i].target,
            a.attrs[a.aliases[i].from],
        ),
    decreases n,
{
    let m = (n - 1) as nat;
    let was = after_aliases(a, out, m)->Ok_0;
    let now = after_aliases(a, out, n)->Ok_0;
    let alias = a.aliases[n - 1];
    let key = a.aliases[i].target;
    let value = a.attrs[a.aliases[i].from];
    assert(after_alias(a, was, alias) == Ok::<Ann, (Seq<char>, Seq<char>)>(now));
    if i < m {
        aliases_carry(a, out, m, i, marker);
    }
    if alias.marker is Some && a.attrs.contains_key(alias.from) {
        let other = alias.marker->0;
        let new = a.attrs[alias.from];
        assert forall|k: int| 0 <= k < now.meta.len() implies carries(
            #[trigger] now.meta[k],
            marker,
            key,
            value,
        ) by {
            assert(now.meta[k] == forwarded(was.meta[k], other, alias.target, new));
            forwarding_carries(was.meta[k], marker, key, value, other, alias.target, new);
            if i < m {
                assert(carries(was.meta[k], marker, key, value));
            }
        }
    } else {
        assert(now.meta == was.meta);
    }
}

/// What a level carries, the next one carries.
proof fn next_level_carries(level: Seq<Ann>, marker: Seq<char>, key: Seq<char>, value: Value)
    requires
        all_carry(level, marker, key, value),
    ensures
        all_carry(next_level(level), marker, key, value),
    decreases level.len(),
{
    if level.len() > 0 {
        let before = level.drop_last();
        assert forall|i: int| 0 <= i < before.len() implies carries(
            #[trigger] before[i],
            marker,
            key,
            value,
        ) by {
            assert(before[i] == level[i]);
        }
        next_level_carries(before, marker, key, value);
        let last = level[level.len() - 1];
        assert(carries(last, marker, key, value));
        let all = next_level(level);
        assert forall|i: int| 0 <= i < all.len() implies carries(
            #[trigger] all[i],
            marker,
            key,
            value,
        ) by {
            let n = next_level(before).len();
            if i < n {
                assert(all[i] == next_level(before)[i]);
            } else {
                assert(all[i] == last.meta[i - n]);
            }
        }
    }
}

/// What a level carries, all levels below it carry.
proof fn levels_carry(level: Seq<Ann>, marker: Seq<char>, key: Seq<char>, value: Value)
    requires
        all_carry(level, marker, key, value),
    ensures
        forall|d: int|
            0 <= d < levels(level).len() ==> all_carry(
                #[trigger] levels(level)[d],
                marker,
                key,
                value,
            ),
    decreases size_all(level),
{
    if level.len() > 0 {
        next_level_is_smaller(level);
        next_level_carries(level, marker, key, value);
        levels_carry(next_level(level), marker, key, value);
        assert forall|d: int| 0 <= d < levels(level).len() implies all_carry(
            #[trigger] levels(level)[d],
            marker,
            key,
            value,
        ) by {
            if d > 0 {
                assert(levels(level)[d] == levels(next_level(level))[d - 1]);
            }
        }
    }
}

/// What all levels but the first carry, all that is visited behind the first level carries.
proof fn visits_carry(all: Seq<Seq<Ann>>, marker: Seq<char>, key: Seq<char>, value: Value)
    requires
        forall|d: int| 0 < d < all.len() ==> all_carry(#[trigger] all[d], marker, key, value),
    ensures
        forall|k: int|
            0 <= k < visits(all).len() && (#[trigger] visits(all)[k]).0 > 0 ==> carries(
                visits(all)[k].1,
                marker,
                key,
                value,
            ),
    decreases all.len(),
{
    if all.len() > 0 {
        let before = all.drop_last();
        visits_carry(before, marker, key, value);
        let n = visits(before).len();
        assert forall|k: int|
            0 <= k < visits(all).len() && (#[trigger] visits(all)[k]).0 > 0 implies carries(
            visits(all)[k].1,
            marker,
            key,
            value,
        ) by {
            if k < n {
                assert(visits(all)[k] == visits(before)[k]);
            } else {
                let last = all[all.len() - 1];
                assert(visits(all)[k] == ((all.len() - 1) as nat, last[k - n]));
                assert(all_carry(last, marker, key, value));
            }
        }
    }
}

/// An alias into another annotation overrides: where the attribute is set, its value stands
/// at the target of that annotation, wherever in the composition it is met.
pub proof fn override_reaches_its_annotation(root: Ann, i: int, marker: Seq<char>)
    requires
        resolved(root) is Ok,
        0 <= i < root.aliases.len(),
        root.aliases[i].marker == Some(marker),
        root.attrs.contains_key(root.aliases[i].from),
        forall|k: int|
            0 <= k < root.aliases.len() && (#[trigger] root.aliases[k]).marker == Some(marker)
                && root.aliases[k].target == root.aliases[i].target ==> root.aliases[k].from
                == root.aliases[i].from,
    ensures
        applied(root) matches Ok(whole) && resolved(root) == Ok::<
            Merged,
            (Seq<char>, Seq<char>),
        >(merged(whole)) && forall|k: int|
            0 <= k < closure(whole).len() && (#[trigger] closure(whole)[k]).0 > 0 && closure(
                whole,
            )[k].1.path == marker ==> closure(whole)[k].1.attrs.contains_key(
                root.aliases[i].target,
            ) && closure(whole)[k].1.attrs[root.aliases[i].target]
                == root.attrs[root.aliases[i].from],
{
    let key = root.aliases[i].target;
    let value = root.attrs[root.aliases[i].from];
    let start = Ann { meta: applied_all(root.meta)->Ok_0, ..root };
    let n = root.aliases.len();
    let whole = after_aliases(root, start, n)->Ok_0;
    assert(applied(root) == Ok::<Ann, (Seq<char>, Seq<char>)>(whole));
    aliases_carry(root, start, n, i, marker);
    let top = seq![whole];
    assert(top.drop_last() =~= Seq::<Ann>::empty());
    assert(next_level(top.drop_last()) =~= Seq::<Ann>::empty());
    assert(next_level(top) =~= whole.meta);
    next_level_is_smaller(top);
    levels_carry(whole.meta, marker, key, value);
    assert(levels(top) == seq![top] + levels(whole.meta));
    assert forall|d: int| 0 < d < levels(top).len() implies all_carry(
        #[trigger] levels(top)[d],
        marker,
        key,
        value,
    ) by {
        assert(levels(top)[d] == levels(whole.meta)[d - 1]);
    }
    visits_carry(levels(top), marker, key, value);
}

/// Applying no aliases changes nothing.
proof fn alias_free_is_kept(a: Ann)
    requires
        alias_free(a),
    ensures
        applied(a) == Ok::<Ann, (Seq<char>, Seq<char>)>(a),
    decreases a, 1nat,
{
    alias_free_all_kept(a, a.meta.len() as int);
    assert(a.meta.take(a.meta.len() as int) =~= a.meta);
    assert(Ann { meta: a.meta, ..a } == a);
    assert(after_aliases(a, a, 0) == Ok::<Ann, (Seq<char>, Seq<char>)>(a));
}

/// Applying no aliases changes nothing in the first `n` annotations `a` is composed of.
proof fn alias_free_all_kept(a: Ann, n: int)
    requires
        alias_free(a),
        0 <= n <= a.meta.len(),
    ensures
        applied_all(a.meta.take(n)) == Ok::<Seq<Ann>, (Seq<char>, Seq<char>)>(a.meta.take(n)),
    decreases a, 0nat, n,
{
    let meta = a.meta.take(n);
    if n > 0 {
        alias_free_all_kept(a, n - 1);
        assert(meta.drop_last() =~= a.meta.take(n - 1));
        assert(meta.last() == a.meta[n - 1]);
        assert(alias_free(a.meta[n - 1]));
        alias_free_is_kept(a.meta[n - 1]);
        assert(a.meta.take(n - 1).push(a.meta[n - 1]) =~= meta);
    } else {
        assert(meta =~= Seq::<Ann>::empty());
    }
}

/// The texts of a list, its paths among them.
pub open spec fn texts_in(items: Seq<Value>) -> Seq<Seq<char>>
    decreases items.len(),
{
    if items.len() == 0 {
        Seq::empty()
    } else {
        let before = texts_in(items.drop_last());
        match items.last() {
            Value::Str(s) => before.push(s),
            Value::Path(s) => before.push(s),
            _ => before,
        }
    }
}

/// The texts of the attribute `key`: those of a list, or the one text it is.
pub open spec fn texts_at(attrs: Map<Seq<char>, Value>, key: Seq<char>) -> Seq<Seq<char>> {
    if attrs.contains_key(key) {
        match attrs[key] {
            Value::List(items) => texts_in(items),
            Value::Str(s) => seq![s],
            _ => Seq::empty(),
        }
    } else {
        Seq::empty()
    }
}

/// The truth value of the attribute `key`, or `default` where it has none.
pub open spec fn flag_at(attrs: Map<Seq<char>, Value>, key: Seq<char>, default: bool) -> bool {
    if attrs.contains_key(key) && attrs[key] is Bool {
        attrs[key]->Bool_0
    } else {
        default
    }
}

/// One call of `of` for each text.
pub open spec fn minted(of: Seq<char>, texts: Seq<Seq<char>>) -> Seq<Seq<char>> {
    Seq::new(texts.len(), |i: int| of + literal_source(texts[i]) + ")"@)
}

/// The source of the candidate role.
pub open spec fn candidate_role(attrs: Map<Seq<char>, Value>) -> Seq<char> {
    match (flag_at(attrs, "primary"@, false), flag_at(attrs, "fallback"@, false)) {
        (false, false) => "::leaf_core::CandidateRole::NORMAL"@,
        (true, false) => "::leaf_core::CandidateRole::PRIMARY"@,
        (false, true) => "::leaf_core::CandidateRole::FALLBACK"@,
        (true, true) => "::leaf_core::CandidateRole::FALLBACK.primary()"@,
    }
}

/// A list is read as the texts and the paths in it, in their order; a single text as itself.
pub proof fn texts_are_read_in_order(
    attrs: Map<Seq<char>, Value>,
    key: Seq<char>,
    items: Seq<Value>,
    text: Seq<char>,
)
    ensures
        texts_in(items.push(Value::Str(text))) == texts_in(items).push(text),
        texts_in(items.push(Value::Path(text))) == texts_in(items).push(text),
        texts_in(Seq::empty()).len() == 0,
        texts_at(attrs.insert(key, Value::List(items)), key) == texts_in(items),
        texts_at(attrs.insert(key, Value::Str(text)), key) == seq![text],
        !attrs.contains_key(key) ==> texts_at(attrs, key).len() == 0,
{
    assert(items.push(Value::Str(text)).drop_last() =~= items);
    assert(items.push(Value::Path(text)).drop_last() =~= items);
}

/// A flag is what it is set to, and its default where it is not set; a candidate that is marked as
/// primary, as a fallback, as both or as neither is printed as that.
pub proof fn candidates_are_printed_as_marked(
    attrs: Map<Seq<char>, Value>,
    key: Seq<char>,
    b: bool,
    default: bool,
)
    ensures
        flag_at(attrs.insert(key, Value::Bool(b)), key, default) == b,
        !attrs.contains_key(key) ==> flag_at(attrs, key, default) == default,
        ({
            let primary = attrs.contains_key("primary"@) && attrs["primary"@] == Value::Bool(true);
            let fallback = attrs.contains_key("fallback"@) && attrs["fallback"@] == Value::Bool(
                true,
            );
            candidate_role(attrs) == if primary && fallback {
                "::leaf_core::CandidateRole::FALLBACK.primary()"@
            } else if primary {
                "::leaf_core::CandidateRole::PRIMARY"@
            } else if fallback {
                "::leaf_core::CandidateRole::FALLBACK"@
            } else {
                "::leaf_core::CandidateRole::NORMAL"@
            }
        }),
{
}

/// The source of the constant metadata that a flattened annotation stands for.
pub open spec fn metadata_source(m: Merged) -> Seq<char> {
    "::leaf_core::AnnotationMetadata { qualifiers: &["@ + join(
        minted("::leaf_core::MarkerId::of("@, texts_at(m.attrs, "qualifiers"@)),
        ", "@,
    ) + "], markers: &["@ + join(minted("::leaf_core::MarkerId::of("@, m.markers), ", "@)
        + "], depends_on: &["@ + join(
        minted("::leaf_core::ContractId::of("@, texts_at(m.attrs, "depends_on"@)),
        ", "@,
    ) + "], candidate_role: "@ + candidate_role(m.attrs) + ", autowire_candidate: "@ + bool_source(
        flag_at(m.attrs, "autowire_candidate"@, true),
    ) + " }"@
}

/// Prints one call of `of` for each text, as the items of a list.
fn mint_all(of: &str, texts: &Vec<String>) -> (res: String)
    ensures
        res@ == join(minted(of@, texts.deep_view()), ", "@),
{
    let mut rows: Vec<String> = Vec::new();
    let mut i: usize = 0;
    while i < texts.len()
        invariant
            i <= texts.len(),
            rows@.len() == i,
            forall|k: int|
                0 <= k < i ==> (#[trigger] rows@[k])@ == minted(of@, texts.deep_view())[k],
        decreases texts.len() - i,
    {
        let text = string_literal(texts[i].as_str());
        rows.push(of.to_string().concat(text.as_str()).concat(")"));
        i += 1;
    }
    assert(rows.deep_view() =~= minted(of@, texts.deep_view()));
    join_texts(&rows, ", ")
}

/// The metadata of a bean lists its qualifiers, its markers and what it depends on, each in its own
/// field and order, and says how it counts as a candidate: it can be injected unless it is told
/// otherwise.
pub proof fn metadata_says_what_was_merged(m: Merged)
    ensures
        ({
            let qualifiers = texts_at(m.attrs, "qualifiers"@);
            let depends_on = texts_at(m.attrs, "depends_on"@);
            let a = join(minted("::leaf_core::MarkerId::of("@, qualifiers), ", "@);
            let b = join(minted("::leaf_core::MarkerId::of("@, m.markers), ", "@);
            let c = join(minted("::leaf_core::ContractId::of("@, depends_on), ", "@);
            &&& metadata_source(m) == "::leaf_core::AnnotationMetadata { qualifiers: &["@ + a
                + "], markers: &["@ + b + "], depends_on: &["@ + c + "], candidate_role: "@
                + candidate_role(m.attrs) + ", autowire_candidate: "@ + (if m.attrs.contains_key(
                "autowire_candidate"@,
            ) && m.attrs["autowire_candidate"@] == Value::Bool(false) {
                "false"@
            } else {
                "true"@
            }) + " }"@
            &&& lists(
                a,
                Seq::new(
                    qualifiers.len(),
                    |i: int| "::leaf_core::MarkerId::of("@ + literal_source(qualifiers[i]) + ")"@,
                ),
                ", "@,
            )
            &&& lists(
                b,
                Seq::new(
                    m.markers.len(),
                    |i: int| "::leaf_core::MarkerId::of("@ + literal_source(m.markers[i]) + ")"@,
                ),
                ", "@,
            )
            &&& lists(
                c,
                Seq::new(
                    depends_on.len(),
                    |i: int| "::leaf_core::ContractId::of("@ + literal_source(depends_on[i]) + ")"@,
                ),
                ", "@,
            )
        }),
{
    let qualifiers = texts_at(m.attrs, "qualifiers"@);
    let depends_on = texts_at(m.attrs, "depends_on"@);
    joined_lists(minted("::leaf_core::MarkerId::of("@, qualifiers), ", "@);
    joined_lists(minted("::leaf_core::MarkerId::of("@, m.markers), ", "@);
    joined_lists(minted("::leaf_core::ContractId::of("@, depends_on), ", "@);
    assert(minted("::leaf_core::MarkerId::of("@, qualifiers) =~= Seq::new(
        qualifiers.len(),
        |i: int| "::leaf_core::MarkerId::of("@ + literal_source(qualifiers[i]) + ")"@,
    ));
    assert(minted("::leaf_core::MarkerId::of("@, m.markers) =~= Seq::new(
        m.markers.len(),
        |i: int| "::leaf_core::MarkerId::of("@ + literal_source(m.markers[i]) + ")"@,
    ));
    assert(minted("::leaf_core::ContractId::of("@, depends_on) =~= Seq::new(
        depends_on.len(),
        |i: int| "::leaf_core::ContractId::of("@ + literal_source(depends_on[i]) + ")"@,
    ));
}

/// Nothing: no markers and no attributes.
pub open spec fn nothing() -> Merged {
    Merged { markers: Seq::empty(), distances: Map::empty(), attrs: Map::empty() }
}

impl Clone for MergedAnnotation {
    fn clone(&self) -> (res: MergedAnnotation)
        ensures
            res@ == self@,
    {
        let markers = copy_texts(&self.markers);
        MergedAnnotation { markers, distances: self.distances.clone(), attrs: self.attrs.clone() }
    }
}

impl Default for MergedAnnotation {
    fn default() -> (res: MergedAnnotation)
        ensures
            res@ == nothing(),
    {
        let res = MergedAnnotation {
            markers: Vec::new(),
            distances: NameMap::new(),
            attrs: NameMap::new(),
        };
        assert(res@.markers =~= Seq::<Seq<char>>::empty());
        res
    }
}

impl MergedAnnotation {
    /// The distance at which `marker` is first met.
    pub fn distance_of(&self, marker: &str) -> (res: Option<usize>)
        ensures
            res == (if self@.distances.contains_key(marker@) {
                Some(self@.distances[marker@])
            } else {
                None
            }),
    {
        match self.distances.get(marker) {
            Some(depth) => Some(*depth),
            None => None,
        }
    }

    /// The value of the attribute `key`.
    pub fn attr(&self, key: &str) -> (res: Option<&AttrValue>)
        ensures
            match res {
                Some(value) => self@.attrs.contains_key(key@) && self@.attrs[key@] == value@,
                None => !self@.attrs.contains_key(key@),
            },
    {
        self.attrs.get(key)
    }

    /// The texts of the attribute `key`.
    fn str_list(&self, key: &str) -> (res: Vec<String>)
        ensures
            res.deep_view() == texts_at(self@.attrs, key@),
    {
        let mut out: Vec<String> = Vec::new();
        assert(out.deep_view() =~= Seq::<Seq<char>>::empty());
        match self.attrs.get(key) {
            Some(AttrValue::List(items)) => {
                let ghost values = self@.attrs[key@]->List_0;
                let mut i: usize = 0;
                assert(values.take(0) =~= Seq::<Value>::empty());
                while i < items.len()
                    invariant
                        i <= items.len(),
                        values == value_of(AttrValue::List(*items))->List_0,
                        out.deep_view() == texts_in(values.take(i as int)),
                    decreases items.len() - i,
                {
                    let ghost before = out.deep_view();
                    proof {
                        let next = values.take(i + 1);
                        assert(next.drop_last() =~= values.take(i as int));
                        assert(next.last() == items@[i as int]@);
                    }
                    match &items[i] {
                        AttrValue::Str(s) => {
                            out.push(s.clone());
                            assert(out.deep_view() =~= before.push(s@));
                        },
                        AttrValue::Path(s) => {
                            out.push(s.clone());
                            assert(out.deep_view() =~= before.push(s@));
                        },
                        _ => {},
                    }
                    i += 1;
                }
                assert(values.take(i as int) =~= values);
            },
            Some(AttrValue::Str(s)) => {
                out.push(s.clone());
                assert(out.deep_view() =~= seq![s@]);
            },
            _ => {},
        }
        out
    }

    /// The truth value of the attribute `key`, or `default`.
    fn bool_attr(&self, key: &str, default: bool) -> (res: bool)
        ensures
            res == flag_at(self@.attrs, key@, default),
    {
        match self.attrs.get(key) {
            Some(AttrValue::Bool(b)) => *b,
            _ => default,
        }
    }

    /// The source of the candidate role.
    fn candidate_role_text(&self) -> (res: &'static str)
        ensures
            res@ == candidate_role(self@.attrs),
    {
        let primary = self.bool_attr("primary", false);
        let fallback = self.bool_attr("fallback", false);
        match (primary, fallback) {
            (false, false) => "::leaf_core::CandidateRole::NORMAL",
            (true, false) => "::leaf_core::CandidateRole::PRIMARY",
            (false, true) => "::leaf_core::CandidateRole::FALLBACK",
            (true, true) => "::leaf_core::CandidateRole::FALLBACK.primary()",
        }
    }

    /// Prints the constant metadata that this stands for.
    pub fn lower(&self) -> (res: String)
        ensures
            res@ == metadata_source(self@),
    {
        let qualifiers = mint_all("::leaf_core::MarkerId::of(", &self.str_list("qualifiers"));
        let markers = mint_all("::leaf_core::MarkerId::of(", &self.markers);
        let depends_on = mint_all("::leaf_core::ContractId::of(", &self.str_list("depends_on"));
        let role = self.candidate_role_text();
        let autowire = bool_text(self.bool_attr("autowire_candidate", true));
        "::leaf_core::AnnotationMetadata { qualifiers: &[".to_string().concat(
            qualifiers.as_str(),
        ).concat("], markers: &[").concat(markers.as_str()).concat("], depends_on: &[").concat(
            depends_on.as_str(),
        ).concat("], candidate_role: ").concat(role).concat(", autowire_candidate: ").concat(
            autowire,
        ).concat(" }")
    }
}

} // verus!
