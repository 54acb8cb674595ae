//! Response frames: an ordered multimap of fields plus an optional binary payload.

use vstd::prelude::*;
use vstd::string::StringExecFns;

verus! {

/// The fields of a frame as key/value pairs, in the order they were received.
pub type FieldsModel = Seq<(Seq<char>, Seq<char>)>;

/// Index of the first field whose key is `key`, if any.
pub open spec fn first_key_index(f: FieldsModel, key: Seq<char>) -> Option<int>
    decreases f.len(),
{
    if f.len() == 0 {
        None
    } else {
        match first_key_index(f.drop_last(), key) {
            Some(i) => Some(i),
            None => if f.last().0 == key {
                Some(f.len() - 1)
            } else {
                None
            },
        }
    }
}

/// Value of the first field whose key is `key`, if any.
pub open spec fn first_value(f: FieldsModel, key: Seq<char>) -> Option<Seq<char>> {
    match first_key_index(f, key) {
        Some(i) => Some(f[i].1),
        None => None,
    }
}

/// The values of all fields whose key is `key`, in order.
pub open spec fn all_values(f: FieldsModel, key: Seq<char>) -> Seq<Seq<char>>
    decreases f.len(),
{
    if f.len() == 0 {
        Seq::empty()
    } else if f.last().0 == key {
        all_values(f.drop_last(), key).push(f.last().1)
    } else {
        all_values(f.drop_last(), key)
    }
}

/// The fields left after taking the first one with key `key` out.
pub open spec fn without_first(f: FieldsModel, key: Seq<char>) -> FieldsModel {
    match first_key_index(f, key) {
        Some(i) => f.remove(i),
        None => f,
    }
}

/// The records of a listing: each starts at a field whose key is `anchor` and runs up to
/// the next such field or the end; fields before the first anchor belong to none.
pub open spec fn records_of(f: FieldsModel, anchor: Seq<char>) -> Seq<FieldsModel>
    decreases f.len(),
{
    if f.len() == 0 {
        Seq::empty()
    } else {
        let r = records_of(f.drop_last(), anchor);
        if f.last().0 == anchor {
            r.push(seq![f.last()])
        } else if r.len() == 0 {
            r
        } else {
            r.update(r.len() - 1, r.last().push(f.last()))
        }
    }
}

/// Once a prefix holds the key, appending more fields does not move its first index.
proof fn lemma_first_key_index_prefix(f: FieldsModel, key: Seq<char>, n: int)
    requires
        0 <= n <= f.len(),
        first_key_index(f.take(n), key) is Some,
    ensures
        first_key_index(f, key) == first_key_index(f.take(n), key),
    decreases f.len() - n,
{
    if n < f.len() {
        assert(f.take(n + 1).drop_last() =~= f.take(n));
        lemma_first_key_index_prefix(f, key, n + 1);
    } else {
        assert(f.take(n) =~= f);
    }
}

/// One response unit of the protocol.
#[derive(Clone, Debug, PartialEq, Eq)]
pub struct Frame {
    pub(crate) fields: Vec<(String, String)>,
    pub(crate) binary: Option<Vec<u8>>,
}

impl View for Frame {
    type V = FieldsModel;

    closed spec fn view(&self) -> FieldsModel {
        Seq::new(self.fields@.len(), |i: int| (self.fields@[i].0@, self.fields@[i].1@))
    }
}

impl Frame {
    /// The binary payload of the frame, if it carries one.
    pub closed spec fn binary_view(&self) -> Option<Seq<u8>> {
        match self.binary {
            Some(b) => Some(b@),
            None => None,
        }
    }

    /// An empty frame.
    pub fn new() -> (r: Frame)
        ensures
            r@ == FieldsModel::empty(),
            r.binary_view() is None,
    {
        let r = Frame { fields: Vec::new(), binary: None };
        assert(r@ =~= FieldsModel::empty());
        r
    }

    /// Append a field after all the fields already present.
    pub fn push_field(&mut self, key: String, value: String)
        ensures
            final(self)@ == old(self)@.push((key@, value@)),
            final(self).binary_view() == old(self).binary_view(),
    {
        self.fields.push((key, value));
        assert(self@ =~= old(self)@.push((key@, value@)));
    }

    /// Attach a binary payload, replacing any earlier one.
    pub fn set_binary(&mut self, data: Vec<u8>)
        ensures
            final(self)@ == old(self)@,
            final(self).binary_view() == Some(data@),
    {
        self.binary = Some(data);
        assert(self@ =~= old(self)@);
    }

    /// Number of fields in the frame.
    pub fn fields_len(&self) -> (r: usize)
        ensures
            r == self@.len(),
    {
        self.fields.len()
    }

    /// Whether the frame holds no fields and no binary payload.
    pub fn is_empty(&self) -> (r: bool)
        ensures
            r == (self@.len() == 0 && self.binary_view() is None),
    {
        self.fields.len() == 0 && self.binary.is_none()
    }

    /// Whether the frame carries a binary payload.
    pub fn has_binary(&self) -> (r: bool)
        ensures
            r == self.binary_view() is Some,
    {
        self.binary.is_some()
    }

    /// Position of the first field with the given key.
    fn position(&self, key: &String) -> (r: Option<usize>)
        ensures
            r matches Some(i) ==> first_key_index(self@, key@) == Some(i as int) && i < self@.len(),
            r is None ==> first_key_index(self@, key@) is None,
    {
        let mut i: usize = 0;
        while i < self.fields.len()
            invariant
                i <= self.fields@.len(),
                first_key_index(self@.take(i as int), key@) is None,
            decreases self.fields@.len() - i,
        {
            assert(self@.take(i as int + 1).drop_last() =~= self@.take(i as int));
            assert(self@.take(i as int + 1).last() == self@[i as int]);
            if self.fields[i].0 == *key {
                assert(self@[i as int].0 == key@);
                assert(first_key_index(self@.take(i as int + 1), key@) == Some(i as int));
                proof {
                    lemma_first_key_index_prefix(self@, key@, i as int + 1);
                }
                return Some(i);
            }
            i = i + 1;
        }
        assert(self@.take(i as int) =~= self@);
        None
    }

    /// Peek at the value of the first field with the given key.
    pub fn find(&self, key: &str) -> (r: Option<&str>)
        ensures
            r matches Some(v) ==> first_value(self@, key@) == Some(v@),
            r is None ==> first_value(self@, key@) is None,
    {
        let k = String::from_str(key);
        match self.position(&k) {
            Some(i) => Some(self.fields[i].1.as_str()),
            None => None,
        }
    }

    /// Take out the first field with the given key and return its value.
    pub fn get(&mut self, key: &str) -> (r: Option<String>)
        ensures
            r matches Some(v) ==> first_value(old(self)@, key@) == Some(v@),
            r is None ==> first_value(old(self)@, key@) is None,
            final(self)@ == without_first(old(self)@, key@),
            final(self).binary_view() == old(self).binary_view(),
    {
        let k = String::from_str(key);
        match self.position(&k) {
            Some(i) => {
                let (_, v) = self.fields.remove(i);
                assert(self@ =~= old(self)@.remove(i as int));
                Some(v)
            },
            None => None,
        }
    }

    /// The values of every field with the given key, in order.
    pub fn values(&self, key: &str) -> (r: Vec<String>)
        ensures
            r@.len() == all_values(self@, key@).len(),
            forall|j: int| 0 <= j < r@.len() ==> #[trigger] r@[j]@ == all_values(self@, key@)[j],
    {
        let k = String::from_str(key);
        let mut out: Vec<String> = Vec::new();
        let mut i: usize = 0;
        while i < self.fields.len()
            invariant
                i <= self.fields@.len(),
                out@.len() == all_values(self@.take(i as int), k@).len(),
                forall|j: int| 0 <= j < out@.len() ==> #[trigger] out@[j]@ == all_values(self@.take(i as int), k@)[j],
            decreases self.fields@.len() - i,
        {
            assert(self@.take(i as int + 1).drop_last() =~= self@.take(i as int));
            assert(self@.take(i as int + 1).last() == self@[i as int]);
            if self.fields[i].0 == k {
                out.push(self.fields[i].1.clone());
            }
            i = i + 1;
        }
        assert(self@.take(i as int) =~= self@);
        out
    }

    /// Split the fields into records, each starting at a field whose key is `anchor`.
    pub fn records(&self, anchor: &str) -> (r: Vec<Frame>)
        ensures
            r@.len() == records_of(self@, anchor@).len(),
            forall|j: int| 0 <= j < r@.len() ==> #[trigger] r@[j]@ == records_of(self@, anchor@)[j],
    {
        let k = String::from_str(anchor);
        let mut out: Vec<Frame> = Vec::new();
        let mut i: usize = 0;
        while i < self.fields.len()
            invariant
                i <= self.fields@.len(),
                k@ == anchor@,
                out@.len() == records_of(self@.take(i as int), k@).len(),
                forall|j: int| 0 <= j < out@.len() ==> #[trigger] out@[j]@ == records_of(self@.take(i as int), k@)[j],
            decreases self.fields@.len() - i,
        {
            let ghost before = records_of(self@.take(i as int), k@);
            assert(self@.take(i as int + 1).drop_last() =~= self@.take(i as int));
            assert(self@.take(i as int + 1).last() == self@[i as int]);
            let key = self.fields[i].0.clone();
            let value = self.fields[i].1.clone();
            if key == k {
                let mut rec = Frame::new();
                rec.push_field(key, value);
                assert(rec@ =~= seq![self@[i as int]]);
                out.push(rec);
            } else if out.len() > 0 {
                let last = out.len() - 1;
                let mut rec = out.remove(last);
                rec.push_field(key, value);
                out.push(rec);
                assert forall|j: int| 0 <= j < out@.len() implies #[trigger] out@[j]@ == records_of(
                    self@.take(i as int + 1),
                    k@,
                )[j] by {
                    if j < last {
                        assert(out@[j]@ == before[j]);
                    }
                }
            }
            i = i + 1;
        }
        assert(self@.take(i as int) =~= self@);
        out
    }

    /// Take the binary payload out of the frame.
    pub fn take_binary(&mut self) -> (r: Option<Vec<u8>>)
        ensures
            r matches Some(b) ==> old(self).binary_view() == Some(b@),
            r is None ==> old(self).binary_view() is None,
            final(self)@ == old(self)@,
            final(self).binary_view() is None,
    {
        let r = self.binary.take();
        assert(self@ =~= old(self)@);
        r
    }
}

} // verus!
