//! The toggles document that answers a browser client's request.
use vstd::prelude::*;

verus! {

/// The payload of a variant.
pub struct Payload {
    pub _type: String,
    pub value: String,
}

/// The variant of a toggle.
pub struct Variant {
    pub name: String,
    pub payload: Option<Payload>,
}

/// The state of one feature for the requesting context.
pub struct Toggle {
    pub name: String,
    pub enabled: bool,
    pub variant: Variant,
}

/// The answer to a toggles request: one entry per feature.
pub struct Toggles {
    pub toggles: Vec<Toggle>,
}

/// The name of the variant that every toggle reports.
pub open spec fn default_variant_name() -> Seq<char> {
    "default"@
}

/// Whether `t` reports the feature `name` as `enabled`, with the default
/// variant and no payload.
pub open spec fn is_toggle_state(t: Toggle, name: Seq<char>, enabled: bool) -> bool {
    &&& t.name@ == name
    &&& t.enabled == enabled
    &&& t.variant.name@ == default_variant_name()
    &&& t.variant.payload is None
}

/// The toggle that reports the feature `name` as `enabled`.
pub fn toggle_state(name: String, enabled: bool) -> (r: Toggle)
    ensures
        is_toggle_state(r, name@, enabled),
{
    Toggle { name, enabled, variant: Variant { name: "default".to_owned(), payload: None } }
}

impl Default for Toggles {
    /// A document with no toggles.
    fn default() -> (r: Toggles)
        ensures
            r.toggles@.len() == 0,
    {
        Toggles { toggles: Vec::new() }
    }
}

impl Toggles {
    /// Appends the toggle that reports the feature `name` as `enabled`.
    pub fn push_feature(&mut self, name: String, enabled: bool)
        ensures
            final(self).toggles@.len() == old(self).toggles@.len() + 1,
            forall|i: int|
                0 <= i < old(self).toggles@.len() ==> #[trigger] final(self).toggles@[i] == old(
                    self,
                ).toggles@[i],
            is_toggle_state(final(self).toggles@.last(), name@, enabled),
    {
        self.toggles.push(toggle_state(name, enabled));
    }
}

/// Whether `enabled` is what trying the first `count` strategies of feature
/// `f` in order gives, `check(f, i)` telling whether strategy `i` enables the
/// feature: some strategy enables it and none before that one does, or none
/// of them enables it.
pub open spec fn enabled_by<F: Fn(usize, usize) -> bool>(
    check: F,
    f: usize,
    count: usize,
    enabled: bool,
) -> bool {
    &&& enabled ==> exists|i: usize|
        i < count && #[trigger] check.ensures((f, i), true) && forall|j: usize|
            j < i ==> #[trigger] check.ensures((f, j), false)
    &&& !enabled ==> forall|i: usize| i < count ==> #[trigger] check.ensures((f, i), false)
}

/// Whether feature `f` is enabled: its first `count` strategies are tried in
/// order, and the first that enables the feature ends the search.
pub fn evaluate_strategies<F: Fn(usize, usize) -> bool>(f: usize, count: usize, check: &F) -> (r:
    bool)
    requires
        forall|i: usize| i < count ==> #[trigger] check.requires((f, i)),
    ensures
        enabled_by(*check, f, count, r),
{
    let mut i: usize = 0;
    while i < count
        invariant
            i <= count,
            forall|k: usize| k < count ==> #[trigger] check.requires((f, k)),
            forall|j: usize| j < i ==> #[trigger] check.ensures((f, j), false),
        decreases count - i,
    {
        let enabled = check(f, i);
        if enabled {
            assert(check.ensures((f, i), true));
            return true;
        }
        i = i + 1;
    }
    false
}

/// The toggles document for the features named `names`, in that order:
/// feature `f` has `strategy_counts[f]` strategies, and `check(f, i)` tells
/// whether strategy `i` of feature `f` enables it for the request's context.
pub fn evaluate_features<F: Fn(usize, usize) -> bool>(
    names: &Vec<String>,
    strategy_counts: &Vec<usize>,
    check: F,
) -> (r: Toggles)
    requires
        names@.len() == strategy_counts@.len(),
        forall|f: usize, i: usize|
            f < names@.len() && i < strategy_counts@[f as int] ==> #[trigger] check.requires((f, i)),
    ensures
        r.toggles@.len() == names@.len(),
        forall|f: int|
            #![trigger r.toggles@[f]]
            0 <= f < names@.len() ==> is_toggle_state(r.toggles@[f], names@[f]@, r.toggles@[f].enabled)
                && enabled_by(check, f as usize, strategy_counts@[f], r.toggles@[f].enabled),
{
    let mut doc = Toggles::default();
    let n = names.len();
    let mut f: usize = 0;
    while f < n
        invariant
            n == names@.len(),
            n == strategy_counts@.len(),
            f <= n,
            doc.toggles@.len() == f,
            forall|g: usize, i: usize|
                g < names@.len() && i < strategy_counts@[g as int] ==> #[trigger] check.requires((g, i)),
            forall|g: int|
                #![trigger doc.toggles@[g]]
                0 <= g < f ==> is_toggle_state(doc.toggles@[g], names@[g]@, doc.toggles@[g].enabled)
                    && enabled_by(check, g as usize, strategy_counts@[g], doc.toggles@[g].enabled),
        decreases n - f,
    {
        let enabled = evaluate_strategies(f, strategy_counts[f], &check);
        doc.push_feature(names[f].clone(), enabled);
        f = f + 1;
    }
    doc
}

} // verus!
