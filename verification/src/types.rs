//! Identifier and value types shared by the whole router core.

use vstd::prelude::*;

use crate::assoc;

verus! {

/// Internal identifier of a registered route: the index of its metadata in
/// the route table.
#[derive(Debug, Clone, Copy, PartialEq, Eq, Hash, Structural)]
pub struct RouteId(pub u32);

/// Identifier of a navigation stack (one per business domain / tab / flow).
#[derive(Debug, PartialEq, Eq, Hash)]
pub struct StackId(pub String);

impl Clone for StackId {
    fn clone(&self) -> (r: Self)
        ensures
            r == *self,
    {
        StackId(self.0.clone())
    }
}

/// Which runtime renders a page.
#[derive(Debug, Clone, Copy, PartialEq, Eq, Hash, Structural)]
pub enum RuntimeKind {
    Native,
    ReactNative,
    Flutter,
}

/// Stable string identifier of a middleware ("auth_guard", "trace_request", ...).
#[derive(Debug, PartialEq, Eq, Hash)]
pub struct MiddlewareId(pub String);

impl Clone for MiddlewareId {
    fn clone(&self) -> (r: Self)
        ensures
            r == *self,
    {
        MiddlewareId(self.0.clone())
    }
}

/// Identifier of a middleware scope (a path-pattern-keyed bundle of
/// candidate middleware ids).
#[derive(Debug, PartialEq, Eq, Hash)]
pub struct MiddlewareScopeId(pub String);

impl Clone for MiddlewareScopeId {
    fn clone(&self) -> (r: Self)
        ensures
            r == *self,
    {
        MiddlewareScopeId(self.0.clone())
    }
}

/// Page lifecycle events a route can subscribe to.
#[derive(Debug, Clone, Copy, PartialEq, Eq, Hash, Structural)]
pub enum LifecycleEvent {
    OnAppear,
    OnDisappear,
    OnBeforeLeave,
    OnAfterLeave,
    OnFocus,
    OnBlur,
}

/// How a page is presented to the user.
#[derive(Debug, Clone, Copy, PartialEq, Eq, Hash, Structural)]
pub enum PresentationMode {
    Push,
    Modal,
    Sheet,
    Replace,
    Custom,
}

/// serde_json's JSON value type.  The router core carries parameter values
/// of this type opaquely: it never inspects their structure, it only stores,
/// copies and hands them to external matchers and executors.
#[verifier::external_type_specification]
#[verifier::external_body]
pub struct ExJsonValue(serde_json::Value);

/// Relies on `serde_json::Value::clone` (a derived clone): the clone is
/// equal to the original value.
pub assume_specification[ <serde_json::Value as Clone>::clone ](
    v: &serde_json::Value,
) -> (r: serde_json::Value)
    ensures
        r == *v,
;

/// Canonical parameters: the ordered mapping from string key to JSON-like
/// value that represents the merged view of path/query/body parameters of
/// one navigation request.
///
/// Keys are unique; iteration order is the order of first insertion.
#[derive(Debug, PartialEq)]
pub struct CanonicalParams {
    entries: Vec<(String, serde_json::Value)>,
}

impl View for CanonicalParams {
    type V = Seq<(Seq<char>, serde_json::Value)>;

    /// The parameter map as a sequence of key/value pairs, in iteration order.
    closed spec fn view(&self) -> Seq<(Seq<char>, serde_json::Value)> {
        assoc::kv_seq(self.entries@)
    }
}

impl CanonicalParams {
    /// The parameter map as a mathematical map from key to value.
    pub open spec fn as_map(&self) -> Map<Seq<char>, serde_json::Value> {
        assoc::kv_map(self@)
    }

    /// Keys are unique, so the sequence of entries and the map agree.
    pub open spec fn wf(&self) -> bool {
        assoc::kv_unique(self@)
    }

    pub fn new() -> (r: CanonicalParams)
        ensures
            r.wf(),
            r@ == Seq::<(Seq<char>, serde_json::Value)>::empty(),
    {
        CanonicalParams { entries: Vec::new() }
    }

    pub fn len(&self) -> (n: usize)
        ensures
            n == self@.len(),
    {
        self.entries.len()
    }

    pub fn is_empty(&self) -> (b: bool)
        ensures
            b == (self@.len() == 0),
    {
        self.entries.len() == 0
    }

    /// Inserts `value` under `key`: replaces the value in place if the key is
    /// already present, otherwise appends the pair at the end.
    pub fn insert(&mut self, key: String, value: serde_json::Value)
        requires
            old(self).wf(),
        ensures
            final(self).wf(),
            final(self)@ == assoc::kv_put(old(self)@, key@, value),
            final(self).as_map() == old(self).as_map().insert(key@, value),
    {
        proof {
            assoc::lemma_kv_put_map(self@, key@, value);
        }
        assoc::kv_insert(&mut self.entries, key, value);
    }

    /// Looks the key up; returns the stored value if the key is present.
    pub fn get<'a>(&'a self, key: &str) -> (r: Option<&'a serde_json::Value>)
        ensures
            match r {
                Some(v) => assoc::kv_find(self@, key@) == Some(*v),
                None => assoc::kv_find(self@, key@) is None,
            },
    {
        assoc::kv_get(&self.entries, key)
    }

    pub fn contains_key(&self, key: &str) -> (b: bool)
        ensures
            b == (assoc::kv_find(self@, key@) is Some),
    {
        match assoc::kv_get(&self.entries, key) {
            Some(_) => true,
            None => false,
        }
    }
}

/// The JSON text value carrying a string; what `serde_json::Value::String`
/// returns depends on the text alone.
pub uninterp spec fn json_text(s: Seq<char>) -> serde_json::Value;

/// Relies on `serde_json::Value::String` (an enum constructor): wraps a
/// string as a JSON text value, a function of the text alone.
#[verifier::external_body]
pub(crate) fn text_value(s: String) -> (r: serde_json::Value)
    ensures
        r == json_text(s@),
{
    serde_json::Value::String(s)
}

/// A parameter map after merging extracted path parameters into it, in
/// order: each binding is stored as a JSON text value, overriding any
/// earlier value of the same key.
pub open spec fn with_path_params(
    s: Seq<(Seq<char>, serde_json::Value)>,
    pairs: Seq<(Seq<char>, Seq<char>)>,
) -> Seq<(Seq<char>, serde_json::Value)>
    decreases pairs.len(),
{
    if pairs.len() == 0 {
        s
    } else {
        with_path_params(assoc::kv_put(s, pairs[0].0, json_text(pairs[0].1)), pairs.drop_first())
    }
}

impl CanonicalParams {
    /// Merges extracted path parameters into the map, each as a JSON text
    /// value; a path parameter overrides an earlier value of its key.
    pub fn merge_path_params(&mut self, path_params: &Vec<(String, String)>)
        requires
            old(self).wf(),
        ensures
            final(self).wf(),
            final(self)@ == with_path_params(
                old(self)@,
                crate::pattern::pair_views(path_params@),
            ),
    {
        let ghost pairs = crate::pattern::pair_views(path_params@);
        let ghost goal = with_path_params(self@, pairs);
        let mut i: usize = 0;
        proof {
            assert(pairs.skip(0) =~= pairs);
        }
        while i < path_params.len()
            invariant
                i <= path_params@.len(),
                pairs == crate::pattern::pair_views(path_params@),
                self.wf(),
                goal == with_path_params(self@, pairs.skip(i as int)),
            decreases path_params.len() - i,
        {
            proof {
                assert(pairs.skip(i as int)[0] == (
                    path_params@[i as int].0@,
                    path_params@[i as int].1@,
                ));
                assert(pairs.skip(i as int).drop_first() =~= pairs.skip(i + 1));
            }
            let (key, value) = &path_params[i];
            let jv = text_value(value.clone());
            self.insert(key.clone(), jv);
            i = i + 1;
        }
        proof {
            assert(pairs.skip(pairs.len() as int) =~= Seq::<(Seq<char>, Seq<char>)>::empty());
        }
    }
}

impl Clone for CanonicalParams {
    fn clone(&self) -> (r: Self)
        ensures
            r@ == self@,
    {
        let mut entries: Vec<(String, serde_json::Value)> = Vec::new();
        let mut i: usize = 0;
        while i < self.entries.len()
            invariant
                i <= self.entries.len(),
                entries@ =~= self.entries@.take(i as int),
            decreases self.entries.len() - i,
        {
            let (k, v) = &self.entries[i];
            entries.push((k.clone(), v.clone()));
            i = i + 1;
        }
        proof {
            assert(entries@ =~= self.entries@);
        }
        CanonicalParams { entries }
    }
}

} // verus!
