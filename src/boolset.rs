//! A set of names each explicitly on or off, with a default for the rest.
use vstd::prelude::*;

verus! {

/// One explicit setting.
#[derive(Debug, Clone, PartialEq)]
pub struct Setting {
    pub key: String,
    pub val: bool,
}

/// Names set to true or false; a name never set has the default value.
/// A later setting of a name overrides an earlier one.
#[derive(Debug, Clone, PartialEq)]
pub struct BoolSet {
    pub settings: Vec<Setting>,
    pub default_val: bool,
}

/// The value last set for `key`.
pub open spec fn setting_of(settings: Seq<Setting>, key: Seq<char>) -> Option<bool>
    decreases settings.len(),
{
    if settings.len() == 0 {
        None
    } else if settings.last().key@ == key {
        Some(settings.last().val)
    } else {
        setting_of(settings.drop_last(), key)
    }
}

impl BoolSet {
    /// The value of `key`.
    pub open spec fn value(&self, key: Seq<char>) -> bool {
        match setting_of(self.settings@, key) {
            Some(v) => v,
            None => self.default_val,
        }
    }

    pub fn new_with_default(default_val: bool) -> (r: BoolSet)
        ensures
            r.default_val == default_val,
            r.settings@.len() == 0,
            forall|k: Seq<char>| #[trigger] setting_of(r.settings@, k) is None,
    {
        BoolSet { settings: Vec::new(), default_val }
    }

    /// Sets `key` to `val`, overriding what it was set to.
    pub fn insert(&mut self, key: &str, val: bool)
        ensures
            final(self).default_val == old(self).default_val,
            setting_of(final(self).settings@, key@) == Some(val),
            forall|k: Seq<char>| k != key@ ==> #[trigger] setting_of(final(self).settings@, k)
                == setting_of(old(self).settings@, k),
    {
        let ghost before = self.settings@;
        self.settings.push(Setting { key: String::from_str(key), val });
        assert(self.settings@.drop_last() =~= before);
    }

    /// The value of `key`: what it was set to, else the default.
    pub fn get(&self, key: &str) -> (r: bool)
        ensures
            r == self.value(key@),
    {
        let wanted = String::from_str(key);
        let mut i = self.settings.len();
        assert(self.settings@.take(i as int) =~= self.settings@);
        while i > 0
            invariant
                i <= self.settings@.len(),
                wanted@ == key@,
                setting_of(self.settings@.take(i as int), key@) == setting_of(self.settings@, key@),
            decreases i,
        {
            let k = i - 1;
            assert(self.settings@.take(i as int).last() == self.settings@[k as int]);
            assert(self.settings@.take(i as int).drop_last() =~= self.settings@.take(k as int));
            if self.settings[k].key.eq(&wanted) {
                return self.settings[k].val;
            }
            i = k;
        }
        self.default_val
    }

    /// Takes over every setting of `other`, and its default.
    pub fn update(&mut self, other: &BoolSet)
        ensures
            final(self).default_val == other.default_val,
            forall|k: Seq<char>| #[trigger] setting_of(final(self).settings@, k) == match setting_of(
                other.settings@,
                k,
            ) {
                Some(v) => Some(v),
                None => setting_of(old(self).settings@, k),
            },
    {
        let ghost mine = self.settings@;
        let mut i: usize = 0;
        while i < other.settings.len()
            invariant
                i <= other.settings@.len(),
                self.settings@ == mine + other.settings@.take(i as int),
            decreases other.settings@.len() - i,
        {
            let s = Setting { key: other.settings[i].key.clone(), val: other.settings[i].val };
            self.settings.push(s);
            assert(self.settings@ =~= mine + other.settings@.take(i + 1)) by {
                assert(other.settings@.take(i + 1) =~= other.settings@.take(i as int).push(other.settings@[i as int]));
            }
            i = i + 1;
        }
        assert(other.settings@.take(i as int) =~= other.settings@);
        self.default_val = other.default_val;
        assert forall|k: Seq<char>| #[trigger] setting_of(self.settings@, k) == match setting_of(
            other.settings@,
            k,
        ) {
            Some(v) => Some(v),
            None => setting_of(mine, k),
        } by {
            lemma_setting_of_concat(mine, other.settings@, k);
        }
    }
}

proof fn lemma_setting_of_concat(a: Seq<Setting>, b: Seq<Setting>, k: Seq<char>)
    ensures
        setting_of(a + b, k) == match setting_of(b, k) {
            Some(v) => Some(v),
            None => setting_of(a, k),
        },
    decreases b.len(),
{
    if b.len() == 0 {
        assert(a + b =~= a);
    } else {
        assert((a + b).drop_last() =~= a + b.drop_last());
        assert((a + b).last() == b.last());
        lemma_setting_of_concat(a, b.drop_last(), k);
    }
}

} // verus!
