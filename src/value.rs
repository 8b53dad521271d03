//! The evaluator's values, and the construction of attribute sets from the pairs
//! that the evaluator's stack holds.

use vstd::prelude::*;

verus! {

/// An index into the evaluator's stack.
#[derive(Debug, PartialEq, Eq, Clone, Copy)]
pub struct StackIdx(pub usize);

/// An index into the upvalues of a closure or thunk.
#[derive(Debug, PartialEq, Eq, Clone, Copy)]
pub struct UpvalueIdx(pub usize);

/// A value of the language.
#[derive(Debug, PartialEq)]
pub enum Value {
    Null,
    Bool(bool),
    Integer(i64),
    String(String),
    /// A value captured from a stack slot that was not yet filled when the
    /// capture happened; it is resolved later from that slot.
    DeferredUpvalue(StackIdx),
}

impl Clone for Value {
    fn clone(&self) -> (r: Value)
        ensures
            r == *self,
    {
        match self {
            Value::Null => Value::Null,
            Value::Bool(b) => Value::Bool(*b),
            Value::Integer(i) => Value::Integer(*i),
            Value::String(s) => Value::String(s.clone()),
            Value::DeferredUpvalue(idx) => Value::DeferredUpvalue(*idx),
        }
    }
}

/// An attribute set. Small sets of a common shape have a representation of their
/// own.
#[derive(Debug, PartialEq)]
pub enum NixAttrs {
    /// The empty set.
    Empty,
    /// Any other set: its attributes, each name once.
    Table(Vec<(String, Value)>),
    /// A set of exactly the attributes `name` and `value`.
    KV { name: Value, value: Value },
}

/// Why an attribute set could not be built.
#[derive(Debug, PartialEq)]
pub enum ErrorKind {
    /// An attribute name evaluated to a value that is neither a string nor null.
    InvalidAttributeName(Value),
    /// An attribute name occurs twice.
    DuplicateAttrsKey(String),
}

pub open spec fn name_key() -> Seq<char> {
    seq!['n', 'a', 'm', 'e']
}

pub open spec fn value_key() -> Seq<char> {
    seq!['v', 'a', 'l', 'u', 'e']
}

/// Whether `v` is the string `s`.
pub open spec fn is_string(v: Value, s: Seq<char>) -> bool {
    v matches Value::String(t) && t@ == s
}

/// The attributes that `pairs` hold, where a later pair wins.
pub open spec fn pairs_to_map(pairs: Seq<(String, Value)>) -> Map<Seq<char>, Value>
    decreases pairs.len(),
{
    if pairs.len() == 0 {
        Map::empty()
    } else {
        pairs_to_map(pairs.drop_last()).insert(pairs.last().0@, pairs.last().1)
    }
}

/// Every name occurs once in `pairs`.
pub open spec fn keys_unique(pairs: Seq<(String, Value)>) -> bool {
    forall|i: int, j: int| 0 <= i < j < pairs.len() ==> pairs[i].0@ != pairs[j].0@
}

proof fn lemma_pairs_to_map_dom(pairs: Seq<(String, Value)>, k: Seq<char>)
    ensures
        pairs_to_map(pairs).dom().contains(k) <==> exists|i: int|
            0 <= i < pairs.len() && #[trigger] pairs[i].0@ == k,
    decreases pairs.len(),
{
    if pairs.len() > 0 {
        lemma_pairs_to_map_dom(pairs.drop_last(), k);
        if pairs_to_map(pairs.drop_last()).dom().contains(k) {
            let i = choose|i: int| 0 <= i < pairs.drop_last().len() && #[trigger] pairs.drop_last()[i].0@ == k;
            assert(pairs[i].0@ == k);
        }
        if exists|i: int| 0 <= i < pairs.len() && #[trigger] pairs[i].0@ == k {
            let i = choose|i: int| 0 <= i < pairs.len() && #[trigger] pairs[i].0@ == k;
            if i < pairs.len() - 1 {
                assert(pairs.drop_last()[i].0@ == k);
            }
        }
    }
}

impl View for NixAttrs {
    type V = Map<Seq<char>, Value>;

    /// The attributes of the set, by name.
    open spec fn view(&self) -> Map<Seq<char>, Value> {
        match self {
            NixAttrs::Empty => Map::empty(),
            NixAttrs::Table(pairs) => pairs_to_map(pairs@),
            NixAttrs::KV { name, value } => Map::empty().insert(name_key(), *name).insert(
                value_key(),
                *value,
            ),
        }
    }
}

/// Why building an attribute set fails, in the terms of the contracts.
pub enum AttrsFault {
    InvalidAttributeName(Value),
    DuplicateAttrsKey(Seq<char>),
}

impl View for ErrorKind {
    type V = AttrsFault;

    open spec fn view(&self) -> AttrsFault {
        match self {
            ErrorKind::InvalidAttributeName(v) => AttrsFault::InvalidAttributeName(*v),
            ErrorKind::DuplicateAttrsKey(k) => AttrsFault::DuplicateAttrsKey(k@),
        }
    }
}

/// Adds the attribute whose name evaluated to `key` to `m`. A null name leaves
/// the attribute out.
pub open spec fn add_attr(m: Map<Seq<char>, Value>, key: Value, value: Value) -> Result<
    Map<Seq<char>, Value>,
    AttrsFault,
> {
    match key {
        Value::String(k) => if m.dom().contains(k@) {
            Err(AttrsFault::DuplicateAttrsKey(k@))
        } else {
            Ok(m.insert(k@, value))
        },
        Value::Null => Ok(m),
        _ => Err(AttrsFault::InvalidAttributeName(key)),
    }
}

/// The attributes of the pairs `j .. count` of `slice` (name, value, name, value,
/// ...), added from the last pair down.
pub open spec fn attrs_from(slice: Seq<Value>, count: int, j: int) -> Result<
    Map<Seq<char>, Value>,
    AttrsFault,
>
    decreases count - j,
{
    if j >= count || j < 0 {
        Ok(Map::empty())
    } else {
        match attrs_from(slice, count, j + 1) {
            Err(f) => Err(f),
            Ok(m) => add_attr(m, slice[2 * j], slice[2 * j + 1]),
        }
    }
}

proof fn lemma_attrs_error_stays(slice: Seq<Value>, count: int, j: int)
    requires
        0 <= j <= count,
        attrs_from(slice, count, j) is Err,
    ensures
        attrs_from(slice, count, 0) == attrs_from(slice, count, j),
    decreases j,
{
    if j > 0 {
        lemma_attrs_error_stays(slice, count, j - 1);
    }
}

/// The two pairs of `slice` are `name` and `value`, in either order.
pub open spec fn is_kv_shape(slice: Seq<Value>) -> bool {
    ||| is_string(slice[2], name_key()) && is_string(slice[0], value_key())
    ||| is_string(slice[2], value_key()) && is_string(slice[0], name_key())
}

/// Looks up the attribute named `k` among `pairs`.
fn contains_key(pairs: &Vec<(String, Value)>, k: &String) -> (r: bool)
    ensures
        r == pairs_to_map(pairs@).dom().contains(k@),
{
    proof {
        lemma_pairs_to_map_dom(pairs@, k@);
    }
    let mut i: usize = 0;
    while i < pairs.len()
        invariant
            i <= pairs@.len(),
            forall|m: int| 0 <= m < i ==> pairs@[m].0@ != k@,
        decreases pairs@.len() - i,
    {
        if pairs[i].0 == *k {
            proof {
                lemma_pairs_to_map_dom(pairs@, k@);
                assert(pairs@[i as int].0@ == k@);
            }
            return true;
        }
        i = i + 1;
    }
    proof {
        lemma_pairs_to_map_dom(pairs@, k@);
    }
    false
}

/// Whether `v` is the string `s`.
fn string_is(v: &Value, s: &str) -> (r: bool)
    ensures
        r == is_string(*v, s@),
{
    match v {
        Value::String(t) => {
            let owned = s.to_owned();
            *t == owned
        },
        _ => false,
    }
}

impl NixAttrs {
    /// Builds the attribute set of the `count` name/value pairs that
    /// `stack_slice` holds, names at even positions. A name that evaluated to null
    /// leaves its attribute out.
    pub fn construct(count: usize, stack_slice: Vec<Value>) -> (r: Result<NixAttrs, ErrorKind>)
        requires
            stack_slice@.len() == 2 * count,
        ensures
            count == 0 ==> r == Ok::<NixAttrs, ErrorKind>(NixAttrs::Empty),
            count == 2 && is_kv_shape(stack_slice@) ==> (r matches Ok(a) && a is KV && a@ == if is_string(
                stack_slice@[2],
                name_key(),
            ) {
                Map::empty().insert(name_key(), stack_slice@[3]).insert(value_key(), stack_slice@[1])
            } else {
                Map::empty().insert(name_key(), stack_slice@[1]).insert(value_key(), stack_slice@[3])
            }),
            count != 0 && !(count == 2 && is_kv_shape(stack_slice@)) ==> match attrs_from(
                stack_slice@,
                count as int,
                0,
            ) {
                Ok(m) => r matches Ok(a) && a is Table && a@ == m,
                Err(f) => r matches Err(e) && e@ == f,
            },
    {
        let mut slice = stack_slice;
        if count == 0 {
            return Ok(NixAttrs::Empty);
        }
        if count == 2 {
            proof {
                reveal_strlit("name");
                reveal_strlit("value");
                assert("name"@ =~= name_key());
                assert("value"@ =~= value_key());
            }
            let name_first = string_is(&slice[2], "name") && string_is(&slice[0], "value");
            let value_first = string_is(&slice[2], "value") && string_is(&slice[0], "name");
            if name_first || value_first {
                let ghost s = slice@;
                let v3 = slice.pop().unwrap();
                let _k2 = slice.pop().unwrap();
                let v1 = slice.pop().unwrap();
                assert(v3 == s[3] && v1 == s[1]);
                if name_first {
                    return Ok(NixAttrs::KV { name: v3, value: v1 });
                } else {
                    assert(!is_string(s[2], name_key())) by {
                        assert(name_key()[0] != value_key()[0]);
                    }
                    return Ok(NixAttrs::KV { name: v1, value: v3 });
                }
            }
        }
        let ghost s = slice@;
        let mut pairs: Vec<(String, Value)> = Vec::new();
        let mut j: usize = count;
        while j > 0
            invariant
                j <= count,
                s.len() == 2 * count,
                count != 0,
                !(count == 2 && is_kv_shape(s)),
                slice@ == s.take(2 * j),
                s == stack_slice@,
                attrs_from(s, count as int, j as int) == Ok::<Map<Seq<char>, Value>, AttrsFault>(
                    pairs_to_map(pairs@),
                ),
            decreases j,
        {
            let value = slice.pop().unwrap();
            let key = slice.pop().unwrap();
            assert(value == s[2 * j - 1] && key == s[2 * j - 2]);
            assert(slice@ =~= s.take(2 * (j - 1)));
            match key {
                Value::String(k) => {
                    if contains_key(&pairs, &k) {
                        proof {
                            lemma_attrs_error_stays(s, count as int, j - 1);
                        }
                        return Err(ErrorKind::DuplicateAttrsKey(k));
                    }
                    let ghost old_pairs = pairs@;
                    pairs.push((k, value));
                    assert(pairs@.drop_last() =~= old_pairs);
                },
                Value::Null => {},
                other => {
                    proof {
                        lemma_attrs_error_stays(s, count as int, j - 1);
                    }
                    return Err(ErrorKind::InvalidAttributeName(other));
                },
            }
            j = j - 1;
        }
        Ok(NixAttrs::Table(pairs))
    }
}

} // verus!
