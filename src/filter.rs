//! The filter language: per-field operator-value sets, their meaning on a
//! value, and the list options of a query.
use crate::item::Column;
use crate::time::Timestamp;
use vstd::prelude::*;
use vstd::utf8::encode_utf8;

verus! {

/// The UTF-8 bytes of a string.
pub open spec fn utf8(s: Seq<char>) -> Seq<u8> {
    encode_utf8(s)
}

/// `needle` occurs in `hay` at position `at`.
pub open spec fn occurs_at(hay: Seq<u8>, needle: Seq<u8>, at: int) -> bool {
    0 <= at && at + needle.len() <= hay.len() && hay.subrange(at, at + needle.len()) == needle
}

pub open spec fn occurs_in(hay: Seq<u8>, needle: Seq<u8>) -> bool {
    exists|at: int| occurs_at(hay, needle, at)
}

/// One operator on an integer column.
pub enum OpValInt64 {
    Eq(i64),
    Not(i64),
    In(Vec<i64>),
    NotIn(Vec<i64>),
    Lt(i64),
    Lte(i64),
    Gt(i64),
    Gte(i64),
}

/// Operators on an integer column, all of which must hold.
pub struct OpValsInt64(pub Vec<OpValInt64>);

/// One operator on a text column.
pub enum OpValString {
    Eq(String),
    Not(String),
    Contains(String),
    NotContains(String),
    StartsWith(String),
    EndsWith(String),
}

/// Operators on a text column, all of which must hold.
pub struct OpValsString(pub Vec<OpValString>);

/// One operator with an untyped value, given as text. On a timestamp column
/// the value is the timestamp's RFC 3339 text and only comparisons apply.
pub enum OpValValue {
    Eq(String),
    Not(String),
    Lt(String),
    Lte(String),
    Gt(String),
    Gte(String),
    Contains(String),
    StartsWith(String),
}

/// Untyped operators on one column, all of which must hold.
pub struct OpValsValue(pub Vec<OpValValue>);

impl OpValInt64 {
    pub open spec fn holds(&self, v: i64) -> bool {
        match self {
            OpValInt64::Eq(x) => v == *x,
            OpValInt64::Not(x) => v != *x,
            OpValInt64::In(xs) => xs@.contains(v),
            OpValInt64::NotIn(xs) => !xs@.contains(v),
            OpValInt64::Lt(x) => v < *x,
            OpValInt64::Lte(x) => v <= *x,
            OpValInt64::Gt(x) => v > *x,
            OpValInt64::Gte(x) => v >= *x,
        }
    }

    pub fn test(&self, v: i64) -> (r: bool)
        ensures
            r == self.holds(v),
    {
        match self {
            OpValInt64::Eq(x) => v == *x,
            OpValInt64::Not(x) => v != *x,
            OpValInt64::In(xs) => vec_has(xs, v),
            OpValInt64::NotIn(xs) => !vec_has(xs, v),
            OpValInt64::Lt(x) => v < *x,
            OpValInt64::Lte(x) => v <= *x,
            OpValInt64::Gt(x) => v > *x,
            OpValInt64::Gte(x) => v >= *x,
        }
    }
}

fn vec_has(xs: &Vec<i64>, v: i64) -> (r: bool)
    ensures
        r == xs@.contains(v),
{
    let mut i: usize = 0;
    while i < xs.len()
        invariant
            i <= xs@.len(),
            forall|k: int| 0 <= k < i ==> xs@[k] != v,
        decreases xs.len() - i,
    {
        if xs[i] == v {
            return true;
        }
        i = i + 1;
    }
    false
}

impl OpValsInt64 {
    /// Every operator holds of `v`.
    pub open spec fn holds(&self, v: i64) -> bool {
        forall|i: int| 0 <= i < self.0@.len() ==> (#[trigger] self.0@[i]).holds(v)
    }

    pub fn test(&self, v: i64) -> (r: bool)
        ensures
            r == self.holds(v),
    {
        let mut i: usize = 0;
        while i < self.0.len()
            invariant
                i <= self.0@.len(),
                forall|k: int| 0 <= k < i ==> (#[trigger] self.0@[k]).holds(v),
            decreases self.0.len() - i,
        {
            if !self.0[i].test(v) {
                return false;
            }
            i = i + 1;
        }
        true
    }
}

/// Whether `needle` occurs in `hay` at `at`.
fn bytes_at(hay: &[u8], needle: &[u8], at: usize) -> (r: bool)
    ensures
        r == occurs_at(hay@, needle@, at as int),
{
    if needle.len() > hay.len() || at > hay.len() - needle.len() {
        return false;
    }
    let mut k: usize = 0;
    while k < needle.len()
        invariant
            at + needle@.len() <= hay@.len(),
            hay@.len() == hay.len(),
            k <= needle@.len(),
            forall|j: int| 0 <= j < k ==> hay@[at + j] == needle@[j],
        decreases needle.len() - k,
    {
        if hay[at + k] != needle[k] {
            assert(hay@.subrange(at as int, at + needle@.len())[k as int] != needle@[k as int]);
            return false;
        }
        k = k + 1;
    }
    assert(hay@.subrange(at as int, at + needle@.len()) =~= needle@);
    true
}

fn bytes_contain(hay: &[u8], needle: &[u8]) -> (r: bool)
    ensures
        r == occurs_in(hay@, needle@),
{
    if needle.len() > hay.len() {
        return false;
    }
    let last = hay.len() - needle.len();
    let mut at: usize = 0;
    while at < last
        invariant
            at <= last,
            last == hay@.len() - needle@.len(),
            forall|a: int| 0 <= a < at ==> !occurs_at(hay@, needle@, a),
        decreases last - at,
    {
        if bytes_at(hay, needle, at) {
            return true;
        }
        at = at + 1;
    }
    bytes_at(hay, needle, last)
}

impl OpValString {
    pub open spec fn holds(&self, s: Seq<char>) -> bool {
        match self {
            OpValString::Eq(x) => s == x@,
            OpValString::Not(x) => s != x@,
            OpValString::Contains(x) => occurs_in(utf8(s), utf8(x@)),
            OpValString::NotContains(x) => !occurs_in(utf8(s), utf8(x@)),
            OpValString::StartsWith(x) => occurs_at(utf8(s), utf8(x@), 0),
            OpValString::EndsWith(x) => occurs_at(utf8(s), utf8(x@), utf8(s).len() - utf8(x@).len()),
        }
    }

    pub fn test(&self, s: &String) -> (r: bool)
        ensures
            r == self.holds(s@),
    {
        let hay = s.as_str().as_bytes();
        match self {
            OpValString::Eq(x) => *s == *x,
            OpValString::Not(x) => *s != *x,
            OpValString::Contains(x) => bytes_contain(hay, x.as_str().as_bytes()),
            OpValString::NotContains(x) => !bytes_contain(hay, x.as_str().as_bytes()),
            OpValString::StartsWith(x) => bytes_at(hay, x.as_str().as_bytes(), 0),
            OpValString::EndsWith(x) => {
                let needle = x.as_str().as_bytes();
                if needle.len() > hay.len() {
                    false
                } else {
                    bytes_at(hay, needle, hay.len() - needle.len())
                }
            },
        }
    }
}

impl OpValsString {
    pub open spec fn holds(&self, s: Seq<char>) -> bool {
        forall|i: int| 0 <= i < self.0@.len() ==> (#[trigger] self.0@[i]).holds(s)
    }

    pub fn test(&self, s: &String) -> (r: bool)
        ensures
            r == self.holds(s@),
    {
        let mut i: usize = 0;
        while i < self.0.len()
            invariant
                i <= self.0@.len(),
                forall|k: int| 0 <= k < i ==> (#[trigger] self.0@[k]).holds(s@),
            decreases self.0.len() - i,
        {
            if !self.0[i].test(s) {
                return false;
            }
            i = i + 1;
        }
        true
    }
}

impl OpValValue {
    /// The operator compares, and its value is the text of a timestamp.
    pub open spec fn applies_to_time(&self) -> bool {
        match self {
            OpValValue::Eq(x) => Timestamp::parse_spec(utf8(x@)) is Some,
            OpValValue::Not(x) => Timestamp::parse_spec(utf8(x@)) is Some,
            OpValValue::Lt(x) => Timestamp::parse_spec(utf8(x@)) is Some,
            OpValValue::Lte(x) => Timestamp::parse_spec(utf8(x@)) is Some,
            OpValValue::Gt(x) => Timestamp::parse_spec(utf8(x@)) is Some,
            OpValValue::Gte(x) => Timestamp::parse_spec(utf8(x@)) is Some,
            OpValValue::Contains(_) => false,
            OpValValue::StartsWith(_) => false,
        }
    }

    /// The meaning of the operator on a timestamp column.
    pub open spec fn holds_on_time(&self, t: Timestamp) -> bool {
        match self {
            OpValValue::Eq(x) => t == Timestamp::parse_spec(utf8(x@)).unwrap(),
            OpValValue::Not(x) => t != Timestamp::parse_spec(utf8(x@)).unwrap(),
            OpValValue::Lt(x) => t.before(Timestamp::parse_spec(utf8(x@)).unwrap()),
            OpValValue::Lte(x) => {
                let p = Timestamp::parse_spec(utf8(x@)).unwrap();
                t.before(p) || t == p
            },
            OpValValue::Gt(x) => Timestamp::parse_spec(utf8(x@)).unwrap().before(t),
            OpValValue::Gte(x) => {
                let p = Timestamp::parse_spec(utf8(x@)).unwrap();
                p.before(t) || t == p
            },
            OpValValue::Contains(_) => false,
            OpValValue::StartsWith(_) => false,
        }
    }

    fn operand(&self) -> (r: &String)
        ensures
            match self {
                OpValValue::Eq(x) => r == x,
                OpValValue::Not(x) => r == x,
                OpValValue::Lt(x) => r == x,
                OpValValue::Lte(x) => r == x,
                OpValValue::Gt(x) => r == x,
                OpValValue::Gte(x) => r == x,
                OpValValue::Contains(x) => r == x,
                OpValValue::StartsWith(x) => r == x,
            },
    {
        match self {
            OpValValue::Eq(x) => x,
            OpValValue::Not(x) => x,
            OpValValue::Lt(x) => x,
            OpValValue::Lte(x) => x,
            OpValValue::Gt(x) => x,
            OpValValue::Gte(x) => x,
            OpValValue::Contains(x) => x,
            OpValValue::StartsWith(x) => x,
        }
    }

    /// The operator's value read as a timestamp, where it applies to one.
    pub fn time_operand(&self) -> (r: Option<Timestamp>)
        ensures
            r is Some <==> self.applies_to_time(),
            match self {
                OpValValue::Contains(_) => r is None,
                OpValValue::StartsWith(_) => r is None,
                _ => r == Timestamp::parse_spec(utf8(self.operand_spec()@)),
            },
    {
        match self {
            OpValValue::Contains(_) => None,
            OpValValue::StartsWith(_) => None,
            _ => Timestamp::parse(self.operand().as_str().as_bytes()),
        }
    }

    pub open spec fn operand_spec(&self) -> String {
        match self {
            OpValValue::Eq(x) => *x,
            OpValValue::Not(x) => *x,
            OpValValue::Lt(x) => *x,
            OpValValue::Lte(x) => *x,
            OpValValue::Gt(x) => *x,
            OpValValue::Gte(x) => *x,
            OpValValue::Contains(x) => *x,
            OpValValue::StartsWith(x) => *x,
        }
    }

    /// Whether the operator holds of `t`; the operator must apply to time.
    pub fn test_time(&self, t: &Timestamp) -> (r: bool)
        requires
            self.applies_to_time(),
        ensures
            r == self.holds_on_time(*t),
    {
        let p = match self.time_operand() {
            Some(p) => p,
            None => {
                return false;
            },
        };
        match self {
            OpValValue::Eq(_) => *t == p,
            OpValValue::Not(_) => *t != p,
            OpValValue::Lt(_) => t.is_before(&p),
            OpValValue::Lte(_) => t.is_before(&p) || *t == p,
            OpValValue::Gt(_) => p.is_before(t),
            OpValValue::Gte(_) => p.is_before(t) || *t == p,
            OpValValue::Contains(_) => false,
            OpValValue::StartsWith(_) => false,
        }
    }
}

impl OpValsValue {
    pub open spec fn applies_to_time(&self) -> bool {
        forall|i: int| 0 <= i < self.0@.len() ==> (#[trigger] self.0@[i]).applies_to_time()
    }

    pub open spec fn holds_on_time(&self, t: Timestamp) -> bool {
        forall|i: int| 0 <= i < self.0@.len() ==> (#[trigger] self.0@[i]).holds_on_time(t)
    }

    pub fn check_time(&self) -> (r: bool)
        ensures
            r == self.applies_to_time(),
    {
        let mut i: usize = 0;
        while i < self.0.len()
            invariant
                i <= self.0@.len(),
                forall|k: int| 0 <= k < i ==> (#[trigger] self.0@[k]).applies_to_time(),
            decreases self.0.len() - i,
        {
            if self.0[i].time_operand().is_none() {
                return false;
            }
            i = i + 1;
        }
        true
    }

    pub fn test_time(&self, t: &Timestamp) -> (r: bool)
        requires
            self.applies_to_time(),
        ensures
            r == self.holds_on_time(*t),
    {
        let mut i: usize = 0;
        while i < self.0.len()
            invariant
                i <= self.0@.len(),
                self.applies_to_time(),
                forall|k: int| 0 <= k < i ==> (#[trigger] self.0@[k]).holds_on_time(*t),
            decreases self.0.len() - i,
        {
            if !self.0[i].test_time(t) {
                return false;
            }
            i = i + 1;
        }
        true
    }
}

/// The order of the rows a list returns: by one column, ascending or
/// descending; rows equal in that column keep ascending key order.
#[derive(Debug, Clone, Copy, PartialEq, Eq, Structural)]
pub enum OrderBy {
    Asc(Column),
    Desc(Column),
}

/// The limit a list applies when none is given.
pub const LIST_LIMIT_DEFAULT: u64 = 1000;

/// Pagination and ordering of a list.
#[derive(Debug, Clone, Copy, PartialEq, Eq, Structural)]
pub struct ListOptions {
    pub limit: Option<u64>,
    pub offset: Option<u64>,
    pub order_by: Option<OrderBy>,
}

impl ListOptions {
    pub open spec fn limit_or_default(self) -> nat {
        match self.limit {
            Some(l) => l as nat,
            None => LIST_LIMIT_DEFAULT as nat,
        }
    }

    pub open spec fn offset_or_zero(self) -> nat {
        match self.offset {
            Some(o) => o as nat,
            None => 0,
        }
    }

    /// No limit, no offset, and the primary key ascending.
    pub fn new() -> (r: ListOptions)
        ensures
            r.limit is None && r.offset is None && r.order_by is None,
    {
        ListOptions { limit: None, offset: None, order_by: None }
    }
}

} // verus!
