//! Text properties of zones, nodes and edges, ordered by key.

use crate::number::{Number, NumberView};
use crate::text::{comes_before, lemma_text_order_is_total, lemma_text_order_is_transitive, same_text};
use crate::text::text_less;
use vstd::prelude::*;

verus! {

/// The characters of an optional text.
pub open spec fn text_view(o: Option<String>) -> Option<Seq<char>> {
    match o {
        Some(s) => Some(s@),
        None => None,
    }
}

/// What an optional number stands for.
pub open spec fn number_view(o: Option<Number>) -> Option<NumberView> {
    match o {
        Some(n) => Some(n@),
        None => None,
    }
}

/// Another copy of an optional text.
pub fn copy_text(o: &Option<String>) -> (r: Option<String>)
    ensures
        r == *o,
{
    match o {
        Some(s) => Some(s.clone()),
        None => None,
    }
}

/// Another copy of an optional number.
pub fn copy_number(o: &Option<Number>) -> (r: Option<Number>)
    ensures
        r == *o,
{
    match o {
        Some(n) => Some(n.clone()),
        None => None,
    }
}

/// One property: a key, its text, and the number that the trimmed text reads
/// as, where it reads as one.
#[derive(Debug)]
pub struct Property {
    pub key: String,
    pub value: String,
    pub number: Option<Number>,
}

/// What a [`Property`] stands for.
pub struct PropertyView {
    pub key: Seq<char>,
    pub value: Seq<char>,
    pub number: Option<NumberView>,
}

impl View for Property {
    type V = PropertyView;

    open spec fn view(&self) -> PropertyView {
        PropertyView { key: self.key@, value: self.value@, number: number_view(self.number) }
    }
}

impl Clone for Property {
    fn clone(&self) -> (p: Self)
        ensures
            p == *self,
    {
        Property {
            key: self.key.clone(),
            value: self.value.clone(),
            number: copy_number(&self.number),
        }
    }
}

/// A map from keys to properties, held in the order of its keys.
#[derive(Debug)]
pub struct Properties {
    pub(crate) entries: Vec<Property>,
}

/// Whether the keys ascend, so that none occurs twice.
pub open spec fn keys_ascend(entries: Seq<PropertyView>) -> bool {
    forall|i: int, j: int|
        0 <= i < j < entries.len() ==> text_less((#[trigger] entries[i]).key, (
        #[trigger] entries[j]).key)
}

/// The property stored under a key.
pub open spec fn property_at(entries: Seq<PropertyView>, key: Seq<char>) -> Option<PropertyView>
    decreases entries.len(),
{
    if entries.len() == 0 {
        None
    } else if entries[0].key == key {
        Some(entries[0])
    } else {
        property_at(entries.drop_first(), key)
    }
}

/// The text stored under a key.
pub open spec fn value_at(entries: Seq<PropertyView>, key: Seq<char>) -> Option<Seq<char>> {
    match property_at(entries, key) {
        Some(p) => Some(p.value),
        None => None,
    }
}

/// What is found under a key is the first property that has it.
pub proof fn lemma_property_at(entries: Seq<PropertyView>, key: Seq<char>, i: int)
    requires
        0 <= i <= entries.len(),
        forall|j: int| 0 <= j < i ==> (#[trigger] entries[j]).key != key,
        i < entries.len() ==> entries[i].key == key,
    ensures
        property_at(entries, key) == if i < entries.len() {
            Some(entries[i])
        } else {
            None
        },
    decreases i,
{
    if i > 0 {
        assert(entries[0].key != key);
        lemma_property_at(entries.drop_first(), key, i - 1);
    }
}

/// In ascending keys a property is found wherever it stands.
pub proof fn lemma_property_found(entries: Seq<PropertyView>, i: int)
    requires
        keys_ascend(entries),
        0 <= i < entries.len(),
    ensures
        property_at(entries, entries[i].key) == Some(entries[i]),
{
    assert forall|j: int| 0 <= j < i implies (#[trigger] entries[j]).key != entries[i].key by {
        lemma_text_order_is_total(entries[j].key, entries[i].key);
    }
    lemma_property_at(entries, entries[i].key, i);
}

/// A property that is found stands somewhere.
pub proof fn lemma_property_stands(entries: Seq<PropertyView>, key: Seq<char>) -> (i: int)
    requires
        property_at(entries, key) is Some,
    ensures
        0 <= i < entries.len(),
        entries[i].key == key,
        property_at(entries, key) == Some(entries[i]),
    decreases entries.len(),
{
    if entries[0].key == key {
        0
    } else {
        let k = lemma_property_stands(entries.drop_first(), key);
        k + 1
    }
}

/// The properties with one more stored under its key, in place of one that is
/// there.
pub open spec fn inserted(entries: Seq<PropertyView>, p: PropertyView) -> Seq<PropertyView>
    decreases entries.len(),
{
    if entries.len() == 0 || text_less(p.key, entries[0].key) {
        seq![p] + entries
    } else if p.key == entries[0].key {
        seq![p] + entries.drop_first()
    } else {
        seq![entries[0]] + inserted(entries.drop_first(), p)
    }
}

/// Storing a property keeps the keys ascending, is found again, and changes
/// nothing under any other key.
pub proof fn lemma_inserted(entries: Seq<PropertyView>, p: PropertyView)
    requires
        keys_ascend(entries),
    ensures
        keys_ascend(inserted(entries, p)),
        property_at(inserted(entries, p), p.key) == Some(p),
        forall|k: Seq<char>|
            k != p.key ==> #[trigger] property_at(inserted(entries, p), k) == property_at(
                entries,
                k,
            ),
        forall|b: Seq<char>|
            text_less(b, p.key) && (forall|i: int|
                0 <= i < entries.len() ==> text_less(b, (#[trigger] entries[i]).key)) ==> (
            forall|i: int|
                0 <= i < inserted(entries, p).len() ==> text_less(
                    b,
                    (#[trigger] inserted(entries, p)[i]).key,
                )),
    decreases entries.len(),
{
    let after = inserted(entries, p);
    if entries.len() == 0 || text_less(p.key, entries[0].key) {
        assert(after.drop_first() =~= entries);
        assert(after[0] == p);
        assert forall|i: int| 0 <= i < entries.len() implies text_less(
            p.key,
            (#[trigger] entries[i]).key,
        ) by {
            if i > 0 {
                lemma_text_order_is_transitive(p.key, entries[0].key, entries[i].key);
            }
        }
        assert forall|i: int, j: int| 0 <= i < j < after.len() implies text_less(
            (#[trigger] after[i]).key,
            (#[trigger] after[j]).key,
        ) by {
            assert(after[j] == entries[j - 1]);
            if i > 0 {
                assert(after[i] == entries[i - 1]);
            }
        }
    } else if p.key == entries[0].key {
        assert(after.drop_first() =~= entries.drop_first());
        assert forall|i: int, j: int| 0 <= i < j < after.len() implies text_less(
            (#[trigger] after[i]).key,
            (#[trigger] after[j]).key,
        ) by {
            assert(text_less(entries[i].key, entries[j].key));
        }
    } else {
        let rest = entries.drop_first();
        assert forall|i: int, j: int| 0 <= i < j < rest.len() implies text_less(
            (#[trigger] rest[i]).key,
            (#[trigger] rest[j]).key,
        ) by {
            assert(text_less(entries[i + 1].key, entries[j + 1].key));
        }
        lemma_inserted(rest, p);
        let tail = inserted(rest, p);
        assert(after.drop_first() =~= tail);
        lemma_text_order_is_total(p.key, entries[0].key);
        assert forall|i: int| 0 <= i < rest.len() implies text_less(
            entries[0].key,
            (#[trigger] rest[i]).key,
        ) by {
            assert(rest[i] == entries[i + 1]);
        }
        assert forall|i: int, j: int| 0 <= i < j < after.len() implies text_less(
            (#[trigger] after[i]).key,
            (#[trigger] after[j]).key,
        ) by {
            assert(after[j] == tail[j - 1]);
            if i > 0 {
                assert(after[i] == tail[i - 1]);
            }
        }
        assert forall|b: Seq<char>|
            text_less(b, p.key) && (forall|i: int|
                0 <= i < entries.len() ==> text_less(b, (#[trigger] entries[i]).key)) implies (
        forall|i: int| 0 <= i < after.len() ==> text_less(b, (#[trigger] after[i]).key)) by {
            assert forall|i: int| 0 <= i < rest.len() implies text_less(
                b,
                (#[trigger] rest[i]).key,
            ) by {
                assert(rest[i] == entries[i + 1]);
            }
            assert(text_less(b, entries[0].key));
            assert forall|i: int| 0 <= i < after.len() implies text_less(
                b,
                (#[trigger] after[i]).key,
            ) by {
                if i > 0 {
                    assert(after[i] == tail[i - 1]);
                }
            }
        }
    }
    assert forall|k: Seq<char>| k != p.key implies #[trigger] property_at(after, k) == property_at(
        entries,
        k,
    ) by {
        reveal_with_fuel(property_at, 2);
        if entries.len() > 0 && p.key != entries[0].key && !text_less(p.key, entries[0].key) {
            assert(property_at(after.drop_first(), k) == property_at(entries.drop_first(), k));
            assert(after[0] == entries[0]);
        }
    }
}

/// Where a property goes that belongs behind the first `at` ones.
proof fn lemma_inserted_at(entries: Seq<PropertyView>, p: PropertyView, at: int)
    requires
        0 <= at <= entries.len(),
        forall|j: int| 0 <= j < at ==> text_less((#[trigger] entries[j]).key, p.key),
        at < entries.len() ==> p.key == entries[at].key || text_less(p.key, entries[at].key),
    ensures
        inserted(entries, p) == if at < entries.len() && p.key == entries[at].key {
            entries.update(at, p)
        } else {
            entries.insert(at, p)
        },
    decreases at,
{
    let rest = entries.drop_first();
    if at > 0 {
        lemma_text_order_is_total(p.key, entries[0].key);
        assert(text_less(entries[0].key, p.key));
        assert forall|j: int| 0 <= j < at - 1 implies text_less((#[trigger] rest[j]).key, p.key) by {
            assert(rest[j] == entries[j + 1]);
        }
        lemma_inserted_at(rest, p, at - 1);
    } else if at < entries.len() {
        lemma_text_order_is_total(p.key, entries[0].key);
    }
    assert(inserted(entries, p) =~= if at < entries.len() && p.key == entries[at].key {
        entries.update(at, p)
    } else {
        entries.insert(at, p)
    });
}

/// The properties of one map with those of another stored over them.
pub open spec fn overlaid(under: Seq<PropertyView>, over: Seq<PropertyView>) -> Seq<PropertyView>
    decreases over.len(),
{
    if over.len() == 0 {
        under
    } else {
        inserted(overlaid(under, over.drop_last()), over.last())
    }
}

/// What is found after one map is stored over another is what the second one
/// has, and otherwise what the first one has.
pub proof fn lemma_overlaid(under: Seq<PropertyView>, over: Seq<PropertyView>, key: Seq<char>)
    requires
        keys_ascend(under),
        keys_ascend(over),
    ensures
        keys_ascend(overlaid(under, over)),
        property_at(overlaid(under, over), key) == match property_at(over, key) {
            Some(p) => Some(p),
            None => property_at(under, key),
        },
    decreases over.len(),
{
    if over.len() > 0 {
        let rest = over.drop_last();
        lemma_overlaid(under, rest, key);
        lemma_inserted(overlaid(under, rest), over.last());
        if key == over.last().key {
            lemma_property_found(over, over.len() - 1);
        } else if property_at(rest, key) is Some {
            let i = lemma_property_stands(rest, key);
            lemma_property_found(over, i);
        } else if property_at(over, key) is Some {
            let i = lemma_property_stands(over, key);
            lemma_property_found(rest, i);
        }
    }
}

/// What is stored over nothing stays as it is.
pub proof fn lemma_overlaid_on_nothing(over: Seq<PropertyView>)
    requires
        keys_ascend(over),
    ensures
        overlaid(Seq::empty(), over) == over,
    decreases over.len(),
{
    if over.len() > 0 {
        lemma_overlaid_on_nothing(over.drop_last());
        lemma_inserted_at(over.drop_last(), over.last(), over.len() - 1);
        assert(over.drop_last().insert(over.len() - 1, over.last()) =~= over);
    }
}

impl View for Properties {
    type V = Seq<PropertyView>;

    closed spec fn view(&self) -> Seq<PropertyView> {
        Seq::new(self.entries@.len(), |i: int| self.entries@[i]@)
    }
}

impl Properties {
    #[verifier::type_invariant]
    spec fn ordered(self) -> bool {
        keys_ascend(self@)
    }

    pub fn new() -> (p: Self)
        ensures
            p@ == Seq::<PropertyView>::empty(),
    {
        let p = Properties { entries: Vec::new() };
        assert(p@ =~= Seq::<PropertyView>::empty());
        p
    }

    /// Number of properties.
    pub fn len(&self) -> (n: usize)
        ensures
            n == self@.len(),
    {
        self.entries.len()
    }

    /// The property at a position in the order of keys.
    pub fn entry(&self, i: usize) -> (p: &Property)
        requires
            i < self@.len(),
        ensures
            p@ == self@[i as int],
    {
        &self.entries[i]
    }

    /// The text stored under `key`.
    pub fn get(&self, key: &str) -> (value: Option<&String>)
        ensures
            value is Some <==> value_at(self@, key@) is Some,
            value matches Some(v) ==> value_at(self@, key@) == Some(v@),
    {
        let mut i: usize = 0;
        while i < self.entries.len()
            invariant
                i <= self.entries.len(),
                forall|j: int| 0 <= j < i ==> (#[trigger] self@[j]).key != key@,
            decreases self.entries.len() - i,
        {
            if same_text(self.entries[i].key.as_str(), key) {
                proof {
                    assert(self@[i as int].key == key@);
                    lemma_property_at(self@, key@, i as int);
                }
                return Some(&self.entries[i].value);
            }
            i = i + 1;
        }
        proof {
            lemma_property_at(self@, key@, i as int);
        }
        None
    }

    /// Stores a property under its key, in place of one that is there.
    pub fn insert(&mut self, property: Property)
        ensures
            final(self)@ == inserted(old(self)@, property@),
    {
        proof {
            use_type_invariant(&*self);
        }
        let ghost before = self@;
        let ghost key = property@.key;
        let mut entries: Vec<Property> = Vec::new();
        std::mem::swap(&mut entries, &mut self.entries);
        let mut i: usize = 0;
        while i < entries.len() && comes_before(entries[i].key.as_str(), property.key.as_str())
            invariant
                i <= entries.len(),
                before == Seq::new(entries@.len(), |j: int| entries@[j]@),
                key == property@.key,
                forall|j: int| 0 <= j < i ==> text_less((#[trigger] before[j]).key, key),
            decreases entries.len() - i,
        {
            i = i + 1;
        }
        let ghost at = i as int;
        proof {
            if at < before.len() {
                lemma_text_order_is_total(key, before[at].key);
            }
            lemma_inserted_at(before, property@, at);
            lemma_inserted(before, property@);
        }
        let ghost put = property@;
        if i < entries.len() && same_text(entries[i].key.as_str(), property.key.as_str()) {
            entries.set(i, property);
        } else {
            entries.insert(i, property);
        }
        let ghost after = Seq::new(entries@.len(), |j: int| entries@[j]@);
        assert(after =~= inserted(before, put));
        let mut next = Properties { entries };
        assert(next@ =~= after);
        std::mem::swap(self, &mut next);
    }
}

impl Properties {
    /// Stores every property of another map, in place of those that are there.
    pub fn overlay(&mut self, over: &Properties)
        ensures
            final(self)@ == overlaid(old(self)@, over@),
    {
        let mut i: usize = 0;
        assert(over@.take(0) =~= Seq::empty());
        while i < over.entries.len()
            invariant
                i <= over@.len(),
                over@.len() == over.entries@.len(),
                self@ == overlaid(old(self)@, over@.take(i as int)),
            decreases over.entries.len() - i,
        {
            assert(over@.take(i as int + 1).drop_last() =~= over@.take(i as int));
            self.insert(over.entry(i).clone());
            i = i + 1;
        }
        assert(over@.take(i as int) =~= over@);
    }
}

impl Clone for Properties {
    fn clone(&self) -> (p: Self)
        ensures
            p@ == self@,
    {
        proof {
            use_type_invariant(self);
        }
        let mut entries: Vec<Property> = Vec::new();
        let mut i: usize = 0;
        while i < self.entries.len()
            invariant
                i <= self.entries.len(),
                entries@ == self.entries@.take(i as int),
            decreases self.entries.len() - i,
        {
            entries.push(self.entries[i].clone());
            i = i + 1;
            assert(entries@ =~= self.entries@.take(i as int));
        }
        assert(entries@ =~= self.entries@);
        let ghost copied = Seq::new(entries@.len(), |i: int| entries@[i]@);
        assert(copied =~= self@);
        let p = Properties { entries };
        p
    }
}

} // verus!
