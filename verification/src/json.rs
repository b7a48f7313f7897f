//! JSON documents: requests, user data, metadata and configuration.

use serde_json::Value;
use vstd::prelude::*;

use crate::text::{
    all_digits, chars_of, decimal, decimal_text, digits_value, law_decimals_read_back,
    law_pieces_join_again, parse_digits, pieces, signed_decimal, signed_text, split, text_eq, texts,
};

verus! {

/// A JSON number: an integer, or the text of a number with a fraction or an exponent.
#[derive(Debug)]
pub enum Number {
    Unsigned(u64),
    Negative(i64),
    Fraction(String),
}

/// A JSON document. The members of an object keep their order.
#[derive(Debug)]
pub enum Json {
    Null,
    Bool(bool),
    Number(Number),
    Str(String),
    Array(Vec<Json>),
    Object(Vec<(String, Json)>),
}

/// The mathematical contents of a [`Number`].
pub enum NumberValue {
    Unsigned(u64),
    Negative(i64),
    Fraction(Seq<char>),
}

/// The mathematical contents of a [`Json`] document.
pub enum Tree {
    Null,
    Bool(bool),
    Number(NumberValue),
    Str(Seq<char>),
    Arr(Seq<Tree>),
    Obj(Seq<(Seq<char>, Tree)>),
}

impl View for Number {
    type V = NumberValue;

    open spec fn view(&self) -> NumberValue {
        match *self {
            Number::Unsigned(n) => NumberValue::Unsigned(n),
            Number::Negative(n) => NumberValue::Negative(n),
            Number::Fraction(t) => NumberValue::Fraction(t@),
        }
    }
}

/// The contents of a document.
pub open spec fn tree(json: Json) -> Tree
    decreases json,
{
    match json {
        Json::Null => Tree::Null,
        Json::Bool(b) => Tree::Bool(b),
        Json::Number(n) => Tree::Number(n@),
        Json::Str(s) => Tree::Str(s@),
        Json::Array(items) => Tree::Arr(trees(items@)),
        Json::Object(members) => Tree::Obj(member_trees(members@)),
    }
}

/// The contents of a list of documents.
pub open spec fn trees(items: Seq<Json>) -> Seq<Tree>
    decreases items,
{
    if items.len() == 0 {
        Seq::empty()
    } else {
        trees(items.drop_last()).push(tree(items.last()))
    }
}

/// The contents of the members of an object.
pub open spec fn member_trees(members: Seq<(String, Json)>) -> Seq<(Seq<char>, Tree)>
    decreases members,
{
    if members.len() == 0 {
        Seq::empty()
    } else {
        member_trees(members.drop_last()).push((members.last().0@, tree(members.last().1)))
    }
}

impl View for Json {
    type V = Tree;

    open spec fn view(&self) -> Tree {
        tree(*self)
    }
}

pub proof fn lemma_trees(items: Seq<Json>)
    ensures
        trees(items).len() == items.len(),
        forall|i: int| 0 <= i < items.len() ==> #[trigger] trees(items)[i] == tree(items[i]),
    decreases items.len(),
{
    if items.len() > 0 {
        lemma_trees(items.drop_last());
    }
}

pub proof fn lemma_member_trees(members: Seq<(String, Json)>)
    ensures
        member_trees(members).len() == members.len(),
        forall|i: int|
            0 <= i < members.len() ==> (#[trigger] member_trees(members)[i]).0 == members[i].0@
                && member_trees(members)[i].1 == tree(members[i].1),
    decreases members.len(),
{
    if members.len() > 0 {
        lemma_member_trees(members.drop_last());
    }
}

// ---------------------------------------------------------------------------------------------
// Reading
// ---------------------------------------------------------------------------------------------

/// The value of the first member with a key.
pub open spec fn lookup(members: Seq<(Seq<char>, Tree)>, key: Seq<char>) -> Option<Tree>
    decreases members.len(),
{
    if members.len() == 0 {
        None
    } else if members[0].0 == key {
        Some(members[0].1)
    } else {
        lookup(members.drop_first(), key)
    }
}

/// A key leads to the value of the first member that bears it, and nowhere if none does.
pub proof fn law_lookup_finds_the_first(members: Seq<(Seq<char>, Tree)>, key: Seq<char>)
    ensures
        lookup(members, key) is None <==> forall|i: int|
            0 <= i < members.len() ==> (#[trigger] members[i]).0 != key,
        lookup(members, key) matches Some(value) ==> exists|i: int|
            {
                &&& 0 <= i < members.len()
                &&& (#[trigger] members[i]).0 == key
                &&& members[i].1 == value
                &&& forall|k: int| 0 <= k < i ==> (#[trigger] members[k]).0 != key
            },
    decreases members.len(),
{
    if members.len() > 0 && members[0].0 != key {
        let rest = members.drop_first();
        law_lookup_finds_the_first(rest, key);
        match lookup(rest, key) {
            None => {
                assert forall|i: int| 0 <= i < members.len() implies (#[trigger] members[i]).0
                    != key by {
                    if i > 0 {
                        assert(rest[i - 1] == members[i]);
                    }
                }
            },
            Some(value) => {
                let i = choose|i: int|
                    {
                        &&& 0 <= i < rest.len()
                        &&& (#[trigger] rest[i]).0 == key
                        &&& rest[i].1 == value
                        &&& forall|k: int| 0 <= k < i ==> (#[trigger] rest[k]).0 != key
                    };
                assert(members[i + 1] == rest[i]);
                assert forall|k: int| 0 <= k < i + 1 implies (#[trigger] members[k]).0 != key by {
                    if k > 0 {
                        assert(rest[k - 1] == members[k]);
                    }
                }
            },
        }
    } else if members.len() > 0 {
        assert(members[0].0 == key);
    }
}

impl Tree {
    /// The member of an object; nothing else has members.
    pub open spec fn get(self, key: Seq<char>) -> Option<Tree> {
        match self {
            Tree::Obj(members) => lookup(members, key),
            _ => None,
        }
    }

    pub open spec fn as_str(self) -> Option<Seq<char>> {
        match self {
            Tree::Str(s) => Some(s),
            _ => None,
        }
    }

    pub open spec fn as_u64(self) -> Option<u64> {
        match self {
            Tree::Number(NumberValue::Unsigned(n)) => Some(n),
            _ => None,
        }
    }

    pub open spec fn as_bool(self) -> Option<bool> {
        match self {
            Tree::Bool(b) => Some(b),
            _ => None,
        }
    }
}

/// The contents behind an optional reference.
pub open spec fn opt_tree(value: Option<&Json>) -> Option<Tree> {
    match value {
        Some(json) => Some(json@),
        None => None,
    }
}

/// The value of the first of the members with a key.
pub fn find_member<'a>(members: &'a Vec<(String, Json)>, key: &str) -> (r: Option<&'a Json>)
    ensures
        opt_tree(r) == lookup(member_trees(members@), key@),
{
    let ghost all = member_trees(members@);
    proof {
        lemma_member_trees(members@);
    }
    let mut i: usize = 0;
    assert(all.skip(0) =~= all);
    while i < members.len()
        invariant
            i <= members.len(),
            all == member_trees(members@),
            all.len() == members.len(),
            forall|k: int|
                0 <= k < members.len() ==> (#[trigger] all[k]).0 == members@[k].0@ && all[k].1
                    == tree(members@[k].1),
            lookup(all, key@) == lookup(all.skip(i as int), key@),
        decreases members.len() - i,
    {
        assert(all.skip(i as int)[0] == all[i as int]);
        if text_eq(&members[i].0, key) {
            return Some(&members[i].1);
        }
        assert(all.skip(i as int).drop_first() =~= all.skip(i + 1));
        i = i + 1;
    }
    None
}

impl Json {
    /// The member of an object with a key.
    pub fn get(&self, key: &str) -> (r: Option<&Json>)
        ensures
            opt_tree(r) == self@.get(key@),
    {
        match self {
            Json::Object(members) => find_member(members, key),
            _ => None,
        }
    }

    pub fn as_str(&self) -> (r: Option<&str>)
        ensures
            match r {
                Some(s) => self@.as_str() == Some(s@),
                None => self@.as_str() is None,
            },
    {
        match self {
            Json::Str(s) => Some(s.as_str()),
            _ => None,
        }
    }

    pub fn as_u64(&self) -> (r: Option<u64>)
        ensures
            r == self@.as_u64(),
    {
        match self {
            Json::Number(Number::Unsigned(n)) => Some(*n),
            _ => None,
        }
    }

    pub fn as_bool(&self) -> (r: Option<bool>)
        ensures
            r == self@.as_bool(),
    {
        match self {
            Json::Bool(b) => Some(*b),
            _ => None,
        }
    }

    pub fn is_object(&self) -> (r: bool)
        ensures
            r == self@ is Obj,
    {
        match self {
            Json::Object(_) => true,
            _ => false,
        }
    }
}

// ---------------------------------------------------------------------------------------------
// Copying
// ---------------------------------------------------------------------------------------------

impl Number {
    pub fn copy(&self) -> (r: Number)
        ensures
            r@ == self@,
    {
        match self {
            Number::Unsigned(n) => Number::Unsigned(*n),
            Number::Negative(n) => Number::Negative(*n),
            Number::Fraction(t) => Number::Fraction(t.clone()),
        }
    }
}

impl Json {
    /// A document with the same contents.
    pub fn copy(&self) -> (r: Json)
        ensures
            r@ == self@,
        decreases self,
    {
        match self {
            Json::Null => Json::Null,
            Json::Bool(b) => Json::Bool(*b),
            Json::Number(n) => Json::Number(n.copy()),
            Json::Str(s) => Json::Str(s.clone()),
            Json::Array(items) => {
                let mut out: Vec<Json> = Vec::new();
                let mut i: usize = 0;
                while i < items.len()
                    invariant
                        i <= items.len(),
                        out.len() == i,
                        *self == Json::Array(*items),
                        forall|k: int| 0 <= k < i ==> tree(#[trigger] out@[k]) == tree(items@[k]),
                    decreases items.len() - i,
                {
                    assert(decreases_to!(*self => self->Array_0));
                    assert(decreases_to!(*items => items[i as int]));
                    out.push(items[i].copy());
                    i = i + 1;
                }
                proof {
                    lemma_trees(items@);
                    lemma_trees(out@);
                    assert(trees(out@) =~= trees(items@));
                }
                Json::Array(out)
            },
            Json::Object(members) => {
                let mut out: Vec<(String, Json)> = Vec::new();
                let mut i: usize = 0;
                while i < members.len()
                    invariant
                        i <= members.len(),
                        out.len() == i,
                        *self == Json::Object(*members),
                        forall|k: int|
                            0 <= k < i ==> (#[trigger] out@[k]).0@ == members@[k].0@ && tree(
                                out@[k].1,
                            ) == tree(members@[k].1),
                    decreases members.len() - i,
                {
                    assert(decreases_to!(*self => self->Object_0));
                    assert(decreases_to!(*members => members[i as int]));
                    assert(decreases_to!(members[i as int] => members[i as int].1));
                    out.push((members[i].0.clone(), members[i].1.copy()));
                    i = i + 1;
                }
                proof {
                    lemma_member_trees(members@);
                    lemma_member_trees(out@);
                    assert(member_trees(out@) =~= member_trees(members@));
                }
                Json::Object(out)
            },
        }
    }
}

// ---------------------------------------------------------------------------------------------
// Comparing
// ---------------------------------------------------------------------------------------------

/// The text of a zero with a fraction, of either sign.
pub open spec fn is_zero_text(text: Seq<char>) -> bool {
    text == "0.0"@ || text == "-0.0"@
}

/// Whether two numbers are equal. An integer never equals a number with a fraction.
pub open spec fn same_number(a: NumberValue, b: NumberValue) -> bool {
    match (a, b) {
        (NumberValue::Fraction(s), NumberValue::Fraction(t)) => s == t || (is_zero_text(s)
            && is_zero_text(t)),
        _ => a == b,
    }
}

/// Whether two documents are equal. The order of the members of an object does not count.
pub open spec fn same(a: Tree, b: Tree) -> bool
    decreases a,
{
    match (a, b) {
        (Tree::Null, Tree::Null) => true,
        (Tree::Bool(x), Tree::Bool(y)) => x == y,
        (Tree::Number(x), Tree::Number(y)) => same_number(x, y),
        (Tree::Str(x), Tree::Str(y)) => x == y,
        (Tree::Arr(x), Tree::Arr(y)) => same_items(x, y),
        (Tree::Obj(x), Tree::Obj(y)) => x.len() == y.len() && same_members(x, y),
        _ => false,
    }
}

/// Whether two lists hold equal documents, place by place.
pub open spec fn same_items(a: Seq<Tree>, b: Seq<Tree>) -> bool
    decreases a,
{
    if a.len() != b.len() {
        false
    } else if a.len() == 0 {
        true
    } else {
        same_items(a.drop_last(), b.drop_last()) && same(a.last(), b.last())
    }
}

/// Whether each member of `a` has an equal member under the same key in `b`.
pub open spec fn same_members(a: Seq<(Seq<char>, Tree)>, b: Seq<(Seq<char>, Tree)>) -> bool
    decreases a,
{
    if a.len() == 0 {
        true
    } else {
        same_members(a.drop_last(), b) && match lookup(b, a.last().0) {
            Some(value) => same(a.last().1, value),
            None => false,
        }
    }
}

proof fn lemma_same_items_prefix(a: Seq<Tree>, b: Seq<Tree>, n: int)
    requires
        a.len() == b.len(),
        0 <= n <= a.len(),
        same_items(a, b),
    ensures
        same_items(a.take(n), b.take(n)),
    decreases a.len(),
{
    if n < a.len() {
        assert(a.drop_last().take(n) =~= a.take(n));
        assert(b.drop_last().take(n) =~= b.take(n));
        lemma_same_items_prefix(a.drop_last(), b.drop_last(), n);
    } else {
        assert(a.take(n) =~= a);
        assert(b.take(n) =~= b);
    }
}

proof fn lemma_same_members_prefix(
    a: Seq<(Seq<char>, Tree)>,
    b: Seq<(Seq<char>, Tree)>,
    n: int,
)
    requires
        0 <= n <= a.len(),
        same_members(a, b),
    ensures
        same_members(a.take(n), b),
    decreases a.len(),
{
    if n < a.len() {
        assert(a.drop_last().take(n) =~= a.take(n));
        lemma_same_members_prefix(a.drop_last(), b, n);
    } else {
        assert(a.take(n) =~= a);
    }
}

/// Two documents are equal only if they are of one kind. Plain values are equal exactly where they
/// are the same, numbers with a fraction where they print the same or are both zero, lists where
/// they have as many items and these are equal place by place, and objects where they have as many
/// members and each has an equal value under its key in the other.
pub proof fn law_equal_documents(a: Tree, b: Tree)
    ensures
        a is Null || a is Bool || a is Str ==> (same(a, b) <==> a == b),
        b is Null || b is Bool || b is Str ==> (same(a, b) <==> a == b),
        a matches Tree::Number(n) && (n is Unsigned || n is Negative) ==> (same(a, b) <==> a == b),
        b matches Tree::Number(n) && (n is Unsigned || n is Negative) ==> (same(a, b) <==> a == b),
        a matches Tree::Number(NumberValue::Fraction(s)) ==> (same(a, b) <==> (b matches Tree::Number(
            NumberValue::Fraction(t),
        ) && (s == t || ((s == "0.0"@ || s == "-0.0"@) && (t == "0.0"@ || t == "-0.0"@))))),
        a matches Tree::Arr(x) ==> (same(a, b) <==> (b matches Tree::Arr(y) && x.len() == y.len()
            && forall|i: int| 0 <= i < x.len() ==> same(#[trigger] x[i], y[i]))),
        a matches Tree::Obj(x) ==> (same(a, b) <==> (b matches Tree::Obj(y) && x.len() == y.len()
            && forall|i: int|
            0 <= i < x.len() ==> (lookup(y, (#[trigger] x[i]).0) matches Some(v) && same(x[i].1, v)))),
{
    match (a, b) {
        (Tree::Arr(x), Tree::Arr(y)) => lemma_same_items_all(x, y),
        (Tree::Obj(x), Tree::Obj(y)) => lemma_same_members_all(x, y),
        _ => {},
    }
}

proof fn lemma_same_items_all(a: Seq<Tree>, b: Seq<Tree>)
    ensures
        same_items(a, b) <==> a.len() == b.len() && forall|i: int|
            0 <= i < a.len() ==> same(#[trigger] a[i], b[i]),
    decreases a.len(),
{
    if a.len() == b.len() && a.len() > 0 {
        let x = a.drop_last();
        let y = b.drop_last();
        lemma_same_items_all(x, y);
        if same_items(a, b) {
            assert forall|i: int| 0 <= i < a.len() implies same(#[trigger] a[i], b[i]) by {
                if i < x.len() {
                    assert(x[i] == a[i] && y[i] == b[i]);
                }
            }
        } else if forall|i: int| 0 <= i < a.len() ==> same(#[trigger] a[i], b[i]) {
            assert forall|i: int| 0 <= i < x.len() implies same(#[trigger] x[i], y[i]) by {
                assert(same(a[i], b[i]));
            }
            assert(same(a[a.len() - 1], b[a.len() - 1]));
        }
    }
}

proof fn lemma_same_members_all(a: Seq<(Seq<char>, Tree)>, b: Seq<(Seq<char>, Tree)>)
    ensures
        same_members(a, b) <==> forall|i: int|
            0 <= i < a.len() ==> (lookup(b, (#[trigger] a[i]).0) matches Some(v) && same(a[i].1, v)),
    decreases a.len(),
{
    if a.len() > 0 {
        let x = a.drop_last();
        lemma_same_members_all(x, b);
        if same_members(a, b) {
            assert forall|i: int| 0 <= i < a.len() implies (lookup(b, (#[trigger] a[i]).0) matches Some(
                v,
            ) && same(a[i].1, v)) by {
                if i < x.len() {
                    assert(x[i] == a[i]);
                }
            }
        } else if forall|i: int|
            0 <= i < a.len() ==> (lookup(b, (#[trigger] a[i]).0) matches Some(v) && same(a[i].1, v)) {
            assert forall|i: int| 0 <= i < x.len() implies (lookup(b, (#[trigger] x[i]).0) matches Some(
                v,
            ) && same(x[i].1, v)) by {
                assert(x[i] == a[i]);
            }
            assert(a.last() == a[a.len() - 1]);
        }
    }
}

impl Number {
    pub fn same(&self, other: &Number) -> (r: bool)
        ensures
            r == same_number(self@, other@),
    {
        match (self, other) {
            (Number::Unsigned(a), Number::Unsigned(b)) => *a == *b,
            (Number::Negative(a), Number::Negative(b)) => *a == *b,
            (Number::Fraction(a), Number::Fraction(b)) => {
                text_eq(a, b) || ((text_eq(a, "0.0") || text_eq(a, "-0.0")) && (text_eq(b, "0.0")
                    || text_eq(b, "-0.0")))
            },
            _ => false,
        }
    }
}

impl Json {
    /// Whether two documents are equal.
    pub fn same(&self, other: &Json) -> (r: bool)
        ensures
            r == same(self@, other@),
        decreases self,
    {
        match (self, other) {
            (Json::Null, Json::Null) => true,
            (Json::Bool(a), Json::Bool(b)) => *a == *b,
            (Json::Number(a), Json::Number(b)) => a.same(b),
            (Json::Str(a), Json::Str(b)) => text_eq(a, b),
            (Json::Array(a), Json::Array(b)) => {
                if a.len() != b.len() {
                    proof {
                        lemma_trees(a@);
                        lemma_trees(b@);
                    }
                    return false;
                }
                let ghost x = trees(a@);
                let ghost y = trees(b@);
                proof {
                    lemma_trees(a@);
                    lemma_trees(b@);
                }
                let mut i: usize = 0;
                while i < a.len()
                    invariant
                        i <= a.len(),
                        a.len() == b.len(),
                        *self == Json::Array(*a),
                        *other == Json::Array(*b),
                        x == trees(a@),
                        y == trees(b@),
                        x.len() == a.len(),
                        y.len() == b.len(),
                        forall|k: int| 0 <= k < a.len() ==> #[trigger] x[k] == tree(a@[k]),
                        forall|k: int| 0 <= k < b.len() ==> #[trigger] y[k] == tree(b@[k]),
                        same_items(x.take(i as int), y.take(i as int)),
                    decreases a.len() - i,
                {
                    assert(decreases_to!(*self => self->Array_0));
                    assert(decreases_to!(*a => a[i as int]));
                    let equal = a[i].same(&b[i]);
                    proof {
                        assert(x.take(i + 1).drop_last() =~= x.take(i as int));
                        assert(y.take(i + 1).drop_last() =~= y.take(i as int));
                        assert(x.take(i + 1).last() == x[i as int]);
                        assert(y.take(i + 1).last() == y[i as int]);
                        assert(same_items(x.take(i + 1), y.take(i + 1)) == equal);
                    }
                    if !equal {
                        proof {
                            if same_items(x, y) {
                                lemma_same_items_prefix(x, y, i + 1);
                            }
                        }
                        return false;
                    }
                    i = i + 1;
                }
                assert(x.take(i as int) =~= x);
                assert(y.take(i as int) =~= y);
                true
            },
            (Json::Object(a), Json::Object(b)) => {
                let ghost x = member_trees(a@);
                let ghost y = member_trees(b@);
                proof {
                    lemma_member_trees(a@);
                    lemma_member_trees(b@);
                }
                if a.len() != b.len() {
                    return false;
                }
                let mut i: usize = 0;
                while i < a.len()
                    invariant
                        i <= a.len(),
                        *self == Json::Object(*a),
                        *other == Json::Object(*b),
                        y.len() == x.len(),
                        x == member_trees(a@),
                        y == member_trees(b@),
                        x.len() == a.len(),
                        forall|k: int|
                            0 <= k < a.len() ==> (#[trigger] x[k]).0 == a@[k].0@ && x[k].1 == tree(
                                a@[k].1,
                            ),
                        same_members(x.take(i as int), y),
                    decreases a.len() - i,
                {
                    assert(decreases_to!(*self => self->Object_0));
                    assert(decreases_to!(*a => a[i as int]));
                    assert(decreases_to!(a[i as int] => a[i as int].1));
                    let equal = match find_member(b, &a[i].0) {
                        Some(value) => a[i].1.same(value),
                        None => false,
                    };
                    proof {
                        assert(x.take(i + 1).drop_last() =~= x.take(i as int));
                        assert(x.take(i + 1).last() == x[i as int]);
                        assert(same_members(x.take(i + 1), y) == equal);
                    }
                    if !equal {
                        proof {
                            if same_members(x, y) {
                                lemma_same_members_prefix(x, y, i + 1);
                            }
                        }
                        return false;
                    }
                    i = i + 1;
                }
                assert(x.take(i as int) =~= x);
                true
            },
            _ => false,
        }
    }
}

// ---------------------------------------------------------------------------------------------
// Printing
// ---------------------------------------------------------------------------------------------

/// One hexadecimal digit, in lower case.
pub open spec fn hex_char(d: nat) -> char {
    if d < 10 {
        ('0' as nat + d) as char
    } else {
        ('a' as nat + d - 10) as char
    }
}

/// A character inside a JSON string.
pub open spec fn escaped_char(ch: char) -> Seq<char> {
    if ch == '"' {
        seq!['\\', '"']
    } else if ch == '\\' {
        seq!['\\', '\\']
    } else if ch == '\u{8}' {
        seq!['\\', 'b']
    } else if ch == '\u{c}' {
        seq!['\\', 'f']
    } else if ch == '\n' {
        seq!['\\', 'n']
    } else if ch == '\r' {
        seq!['\\', 'r']
    } else if ch == '\t' {
        seq!['\\', 't']
    } else if (ch as nat) < 0x20 {
        seq!['\\', 'u', '0', '0', hex_char(ch as nat / 16), hex_char(ch as nat % 16)]
    } else {
        seq![ch]
    }
}

/// The characters between the quotes of a JSON string.
pub open spec fn escaped(s: Seq<char>) -> Seq<char>
    decreases s.len(),
{
    if s.len() == 0 {
        Seq::empty()
    } else {
        escaped(s.drop_last()) + escaped_char(s.last())
    }
}

/// A JSON string with its quotes.
pub open spec fn quoted(s: Seq<char>) -> Seq<char> {
    seq!['"'] + escaped(s) + seq!['"']
}

pub open spec fn number_text(n: NumberValue) -> Seq<char> {
    match n {
        NumberValue::Unsigned(n) => decimal_text(n as nat),
        NumberValue::Negative(n) => signed_text(n as int),
        NumberValue::Fraction(text) => text,
    }
}

/// A document as compact JSON text.
pub open spec fn json_text(json: Tree) -> Seq<char>
    decreases json,
{
    match json {
        Tree::Null => seq!['n', 'u', 'l', 'l'],
        Tree::Bool(true) => seq!['t', 'r', 'u', 'e'],
        Tree::Bool(false) => seq!['f', 'a', 'l', 's', 'e'],
        Tree::Number(n) => number_text(n),
        Tree::Str(s) => quoted(s),
        Tree::Arr(items) => seq!['['] + items_text(items) + seq![']'],
        Tree::Obj(members) => seq!['{'] + members_text(members) + seq!['}'],
    }
}

/// Documents separated by commas.
pub open spec fn items_text(items: Seq<Tree>) -> Seq<char>
    decreases items,
{
    if items.len() == 0 {
        Seq::empty()
    } else if items.len() == 1 {
        json_text(items[0])
    } else {
        items_text(items.drop_last()) + seq![','] + json_text(items.last())
    }
}

/// Members separated by commas.
pub open spec fn members_text(members: Seq<(Seq<char>, Tree)>) -> Seq<char>
    decreases members,
{
    if members.len() == 0 {
        Seq::empty()
    } else if members.len() == 1 {
        quoted(members[0].0) + seq![':'] + json_text(members[0].1)
    } else {
        members_text(members.drop_last()) + seq![','] + (quoted(members.last().0) + seq![':']
            + json_text(members.last().1))
    }
}

fn hex_digit(d: u8) -> (ch: char)
    requires
        d < 16,
    ensures
        ch == hex_char(d as nat),
{
    if d < 10 {
        (48 + d) as char
    } else {
        (97 + (d - 10)) as char
    }
}

fn write_escaped(out: &mut String, ch: char)
    ensures
        final(out)@ == old(out)@ + escaped_char(ch),
{
    if ch == '"' {
        out.push('\\');
        out.push('"');
    } else if ch == '\\' {
        out.push('\\');
        out.push('\\');
    } else if ch == '\u{8}' {
        out.push('\\');
        out.push('b');
    } else if ch == '\u{c}' {
        out.push('\\');
        out.push('f');
    } else if ch == '\n' {
        out.push('\\');
        out.push('n');
    } else if ch == '\r' {
        out.push('\\');
        out.push('r');
    } else if ch == '\t' {
        out.push('\\');
        out.push('t');
    } else if (ch as u32) < 0x20 {
        out.push('\\');
        out.push('u');
        out.push('0');
        out.push('0');
        out.push(hex_digit((ch as u32 / 16) as u8));
        out.push(hex_digit((ch as u32 % 16) as u8));
    } else {
        out.push(ch);
    }
    assert(out@ =~= old(out)@ + escaped_char(ch));
}

fn write_quoted(out: &mut String, s: &str)
    ensures
        final(out)@ == old(out)@ + quoted(s@),
{
    let chars = chars_of(s);
    out.push('"');
    let ghost start = old(out)@.push('"');
    let mut i: usize = 0;
    assert(start + escaped(s@.take(0)) =~= start);
    while i < chars.len()
        invariant
            i <= chars.len(),
            chars@ == s@,
            out@ == start + escaped(s@.take(i as int)),
        decreases chars.len() - i,
    {
        let ch: char = chars[i];
        write_escaped(out, ch);
        assert(s@.take(i + 1).drop_last() =~= s@.take(i as int));
        assert(out@ =~= start + escaped(s@.take(i + 1)));
        i = i + 1;
    }
    assert(s@.take(i as int) =~= s@);
    out.push('"');
    assert(out@ =~= old(out)@ + quoted(s@));
}

impl Number {
    pub fn to_text(&self) -> (r: String)
        ensures
            r@ == number_text(self@),
    {
        match self {
            Number::Unsigned(n) => decimal(*n),
            Number::Negative(n) => signed_decimal(*n),
            Number::Fraction(text) => text.clone(),
        }
    }
}

impl Json {
    /// Appends the document as compact JSON text.
    pub fn write_text(&self, out: &mut String)
        ensures
            final(out)@ == old(out)@ + json_text(self@),
        decreases self,
    {
        match self {
            Json::Null => {
                out.push('n');
                out.push('u');
                out.push('l');
                out.push('l');
            },
            Json::Bool(true) => {
                out.push('t');
                out.push('r');
                out.push('u');
                out.push('e');
            },
            Json::Bool(false) => {
                out.push('f');
                out.push('a');
                out.push('l');
                out.push('s');
                out.push('e');
            },
            Json::Number(n) => {
                out.append(&n.to_text());
            },
            Json::Str(s) => {
                write_quoted(out, s);
            },
            Json::Array(items) => {
                let ghost x = trees(items@);
                let ghost start = old(out)@.push('[');
                proof {
                    lemma_trees(items@);
                }
                out.push('[');
                let mut i: usize = 0;
                assert(x.take(0).len() == 0);
                assert(out@ =~= start + items_text(x.take(0)));
                while i < items.len()
                    invariant
                        i <= items.len(),
                        *self == Json::Array(*items),
                        x == trees(items@),
                        x.len() == items.len(),
                        forall|k: int| 0 <= k < items.len() ==> #[trigger] x[k] == tree(items@[k]),
                        out@ == start + items_text(x.take(i as int)),
                    decreases items.len() - i,
                {
                    assert(decreases_to!(*self => self->Array_0));
                    assert(decreases_to!(*items => items[i as int]));
                    if i > 0 {
                        out.push(',');
                    }
                    items[i].write_text(out);
                    proof {
                        assert(x.take(i + 1).drop_last() =~= x.take(i as int));
                        assert(x.take(i + 1).last() == x[i as int]);
                        assert(out@ =~= start + items_text(x.take(i + 1)));
                    }
                    i = i + 1;
                }
                assert(x.take(i as int) =~= x);
                out.push(']');
            },
            Json::Object(members) => {
                let ghost x = member_trees(members@);
                let ghost start = old(out)@.push('{');
                proof {
                    lemma_member_trees(members@);
                }
                out.push('{');
                let mut i: usize = 0;
                assert(out@ =~= start + members_text(x.take(0)));
                while i < members.len()
                    invariant
                        i <= members.len(),
                        *self == Json::Object(*members),
                        x == member_trees(members@),
                        x.len() == members.len(),
                        forall|k: int|
                            0 <= k < members.len() ==> (#[trigger] x[k]).0 == members@[k].0@
                                && x[k].1 == tree(members@[k].1),
                        out@ == start + members_text(x.take(i as int)),
                    decreases members.len() - i,
                {
                    assert(decreases_to!(*self => self->Object_0));
                    assert(decreases_to!(*members => members[i as int]));
                    assert(decreases_to!(members[i as int] => members[i as int].1));
                    if i > 0 {
                        out.push(',');
                    }
                    write_quoted(out, &members[i].0);
                    out.push(':');
                    members[i].1.write_text(out);
                    proof {
                        assert(x.take(i + 1).drop_last() =~= x.take(i as int));
                        assert(x.take(i + 1).last() == x[i as int]);
                        assert(out@ =~= start + members_text(x.take(i + 1)));
                    }
                    i = i + 1;
                }
                assert(x.take(i as int) =~= x);
                out.push('}');
            },
        }
        assert(out@ =~= old(out)@ + json_text(self@));
    }

    /// The document as compact JSON text.
    pub fn to_text(&self) -> (r: String)
        ensures
            r@ == json_text(self@),
    {
        let mut r = String::new();
        self.write_text(&mut r);
        assert(r@ =~= json_text(self@));
        r
    }
}

// ---------------------------------------------------------------------------------------------
// Reading YAML
// ---------------------------------------------------------------------------------------------

#[verifier::external_type_specification]
#[verifier::external_body]
pub struct ExValue(serde_json::Value);

/// The value that `serde_yaml::from_str` reads from a text, or the words in which it refuses the
/// text.
pub uninterp spec fn yaml_value(text: Seq<char>) -> Result<serde_json::Value, Seq<char>>;

/// What a `serde_json::Value` holds.
pub uninterp spec fn value_tree(value: serde_json::Value) -> Tree;

/// The document that a YAML text holds, or the words in which the text is refused.
pub open spec fn yaml_tree(text: Seq<char>) -> Result<Tree, Seq<char>> {
    match yaml_value(text) {
        Ok(value) => Ok(value_tree(value)),
        Err(words) => Err(words),
    }
}

/// Calls `serde_yaml::from_str`, which reads a text in the same way every time, and keeps the
/// words of its error.
#[verifier::external_body]
fn read_yaml(text: &str) -> (r: Result<serde_json::Value, String>)
    ensures
        match r {
            Ok(value) => yaml_value(text@) == Ok::<serde_json::Value, Seq<char>>(value),
            Err(words) => yaml_value(text@) == Err::<serde_json::Value, Seq<char>>(words@),
        },
{
    serde_yaml::from_str(text).map_err(|e| e.to_string())
}

/// Takes a `serde_json::Value` apart: each variant becomes the variant of the same name, numbers
/// by `as_u64` and `as_i64` where these give one, and by their text otherwise.
#[verifier::external_body]
fn json_of(value: &Value) -> (json: Json)
    ensures
        json@ == value_tree(*value),
{
    match value {
        Value::Null => Json::Null,
        Value::Bool(b) => Json::Bool(*b),
        Value::Number(n) => Json::Number(match (n.as_u64(), n.as_i64()) {
            (Some(u), _) => Number::Unsigned(u),
            (_, Some(i)) => Number::Negative(i),
            _ => Number::Fraction(n.to_string()),
        }),
        Value::String(s) => Json::Str(s.clone()),
        Value::Array(v) => Json::Array(v.iter().map(json_of).collect()),
        Value::Object(m) => {
            Json::Object(m.iter().map(|(k, v)| (k.clone(), json_of(v))).collect())
        },
    }
}

/// The `serde_json::Value` that holds a document.
pub uninterp spec fn tree_value(tree: Tree) -> serde_json::Value;

/// Puts a `serde_json::Value` together: each variant becomes the variant of the same name, a
/// number by what std reads its text as where it is no integer. A text that is no finite number
/// becomes null, as `serde_json` has no such number.
#[verifier::external_body]
pub(crate) fn value_of(json: &Json) -> (value: Value)
    ensures
        value == tree_value(json@),
{
    match json {
        Json::Null => Value::Null,
        Json::Bool(b) => Value::Bool(*b),
        Json::Number(Number::Unsigned(u)) => Value::from(*u),
        Json::Number(Number::Negative(i)) => Value::from(*i),
        Json::Number(Number::Fraction(text)) => {
            text.parse().ok().and_then(serde_json::Number::from_f64).into()
        },
        Json::Str(s) => Value::String(s.clone()),
        Json::Array(v) => Value::Array(v.iter().map(value_of).collect()),
        Json::Object(m) => {
            Value::Object(m.iter().map(|(k, v)| (k.clone(), value_of(v))).collect())
        },
    }
}

/// Reads a YAML text, and so also a JSON text, as a document.
pub fn parse_yaml(text: &str) -> (r: Result<Json, String>)
    ensures
        match r {
            Ok(json) => yaml_tree(text@) == Ok::<Tree, Seq<char>>(json@),
            Err(words) => yaml_tree(text@) == Err::<Tree, Seq<char>>(words@),
        },
{
    match read_yaml(text) {
        Ok(value) => Ok(json_of(&value)),
        Err(words) => Err(words),
    }
}

// ---------------------------------------------------------------------------------------------
// Pointers
// ---------------------------------------------------------------------------------------------

/// A reference token with `~1` read as `/` and `~0` read as `~`.
pub open spec fn unescaped_token(token: Seq<char>) -> Seq<char>
    decreases token.len(),
{
    if token.len() == 0 {
        Seq::empty()
    } else if token.len() >= 2 && token[0] == '~' && token[1] == '1' {
        seq!['/'] + unescaped_token(token.skip(2))
    } else if token.len() >= 2 && token[0] == '~' && token[1] == '0' {
        seq!['~'] + unescaped_token(token.skip(2))
    } else {
        seq![token[0]] + unescaped_token(token.skip(1))
    }
}

/// The place in a list that a token names: decimal digits without a leading zero.
pub open spec fn token_index(token: Seq<char>) -> Option<nat> {
    if token.len() == 0 || !all_digits(token) || (token[0] == '0' && token.len() != 1) {
        None
    } else {
        Some(digits_value(token))
    }
}

/// One step of a pointer.
pub open spec fn child(json: Tree, token: Seq<char>) -> Option<Tree> {
    match json {
        Tree::Obj(members) => lookup(members, token),
        Tree::Arr(items) => match token_index(token) {
            Some(i) => if i < items.len() {
                Some(items[i as int])
            } else {
                None
            },
            None => None,
        },
        _ => None,
    }
}

/// The steps of a pointer, one after another.
pub open spec fn descend(json: Option<Tree>, tokens: Seq<Seq<char>>) -> Option<Tree>
    decreases tokens.len(),
{
    if tokens.len() == 0 {
        json
    } else {
        match descend(json, tokens.drop_last()) {
            Some(at) => child(at, unescaped_token(tokens.last())),
            None => None,
        }
    }
}

/// What a JSON pointer (RFC 6901) refers to.
pub open spec fn pointed(json: Tree, pointer: Seq<char>) -> Option<Tree> {
    if pointer.len() == 0 {
        Some(json)
    } else if pointer[0] != '/' {
        None
    } else {
        descend(Some(json), pieces(pointer, '/').drop_first())
    }
}

fn unescape_token(token: &str) -> (r: String)
    ensures
        r@ == unescaped_token(token@),
{
    let chars = chars_of(token);
    let mut r = String::new();
    let mut i: usize = 0;
    assert(chars@.skip(0) =~= token@);
    while i < chars.len()
        invariant
            i <= chars.len(),
            chars@ == token@,
            r@ + unescaped_token(token@.skip(i as int)) == unescaped_token(token@),
        decreases chars.len() - i,
    {
        let ghost rest = token@.skip(i as int);
        let ghost before = r@;
        if i + 1 < chars.len() && chars[i] == '~' && chars[i + 1] == '1' {
            r.push('/');
            i = i + 2;
            assert(rest.skip(2) =~= token@.skip(i as int));
            assert(r@ =~= before + seq!['/']);
        } else if i + 1 < chars.len() && chars[i] == '~' && chars[i + 1] == '0' {
            r.push('~');
            i = i + 2;
            assert(rest.skip(2) =~= token@.skip(i as int));
            assert(r@ =~= before + seq!['~']);
        } else {
            r.push(chars[i]);
            i = i + 1;
            assert(rest.skip(1) =~= token@.skip(i as int));
            assert(r@ =~= before + seq![rest[0]]);
        }
        assert(r@ + unescaped_token(token@.skip(i as int)) =~= before + unescaped_token(rest));
    }
    assert(r@ =~= unescaped_token(token@));
    r
}

fn token_position(token: &str) -> (r: Option<u64>)
    ensures
        match r {
            Some(i) => token_index(token@) == Some(i as nat),
            None => token_index(token@) is None || token_index(token@)->0 > u64::MAX,
        },
{
    let chars = chars_of(token);
    if chars.len() == 0 || (chars[0] == '0' && chars.len() != 1) {
        return None;
    }
    parse_digits(token, u64::MAX)
}

impl Json {
    /// One step of a pointer.
    fn child(&self, token: &str) -> (r: Option<&Json>)
        ensures
            opt_tree(r) == child(self@, token@),
    {
        match self {
            Json::Object(members) => find_member(members, token),
            Json::Array(items) => {
                proof {
                    lemma_trees(items@);
                }
                match token_position(token) {
                    Some(position) => {
                        if position < items.len() as u64 {
                            Some(&items[position as usize])
                        } else {
                            None
                        }
                    },
                    None => {
                        assert(items@.len() == items.len());
                        None
                    },
                }
            },
            _ => None,
        }
    }

    /// Looks up a JSON pointer.
    pub fn pointer(&self, pointer: &str) -> (r: Option<&Json>)
        ensures
            opt_tree(r) == pointed(self@, pointer@),
    {
        let chars = chars_of(pointer);
        if chars.len() == 0 {
            return Some(self);
        }
        if chars[0] != '/' {
            return None;
        }
        let tokens = split(pointer, '/');
        let ghost steps = pieces(pointer@, '/').drop_first();
        let mut at: &Json = self;
        let mut i: usize = 1;
        assert(steps.take(0).len() == 0);
        while i < tokens.len()
            invariant
                1 <= i <= tokens.len(),
                texts(tokens@) == pieces(pointer@, '/'),
                steps == pieces(pointer@, '/').drop_first(),
                descend(Some(self@), steps.take(i - 1)) == Some(at@),
                pointed(self@, pointer@) == descend(Some(self@), steps),
            decreases tokens.len() - i,
        {
            let token = unescape_token(&tokens[i]);
            proof {
                assert(steps.take(i as int).drop_last() =~= steps.take(i - 1));
                assert(steps.take(i as int).last() == texts(tokens@)[i as int]);
                assert(descend(Some(self@), steps.take(i as int)) == child(at@, token@));
            }
            let next = at.child(&token);
            match next {
                Some(json) => {
                    at = json;
                },
                None => {
                    proof {
                        lemma_descend_none(Some(self@), steps, i as int);
                    }
                    return None;
                },
            }
            i = i + 1;
        }
        assert(steps.take(i - 1) =~= steps);
        Some(at)
    }
}

proof fn lemma_descend_none(json: Option<Tree>, tokens: Seq<Seq<char>>, n: int)
    requires
        0 <= n <= tokens.len(),
        descend(json, tokens.take(n)) is None,
    ensures
        descend(json, tokens) is None,
    decreases tokens.len(),
{
    if n < tokens.len() {
        assert(tokens.drop_last().take(n) =~= tokens.take(n));
        lemma_descend_none(json, tokens.drop_last(), n);
    } else {
        assert(tokens.take(n) =~= tokens);
    }
}

// ---------------------------------------------------------------------------------------------
// Signs
// ---------------------------------------------------------------------------------------------

/// A digit other than zero stands before any exponent.
pub open spec fn has_nonzero_digit(text: Seq<char>) -> bool {
    exists|i: int|
        #![trigger text[i]]
        {
            &&& 0 <= i < text.len()
            &&& '1' <= text[i] <= '9'
            &&& forall|k: int| 0 <= k < i ==> (#[trigger] text[k]) != 'e' && text[k] != 'E'
        }
}

/// A number is above zero and not infinite.
pub open spec fn is_positive(n: NumberValue) -> bool {
    match n {
        NumberValue::Unsigned(n) => n > 0,
        NumberValue::Negative(n) => n > 0,
        NumberValue::Fraction(text) => text.len() > 0 && text[0] != '-' && has_nonzero_digit(text),
    }
}

impl Number {
    /// Whether the number is above zero and not infinite.
    pub fn is_positive(&self) -> (r: bool)
        ensures
            r == is_positive(self@),
    {
        match self {
            Number::Unsigned(n) => *n > 0,
            Number::Negative(n) => *n > 0,
            Number::Fraction(text) => {
                let chars = chars_of(text);
                if chars.len() == 0 || chars[0] == '-' {
                    return false;
                }
                let mut i: usize = 0;
                while i < chars.len()
                    invariant
                        i <= chars.len(),
                        chars@ == text@,
                        *self == Number::Fraction(*text),
                        text@.len() > 0,
                        text@[0] != '-',
                        forall|k: int|
                            0 <= k < i ==> (#[trigger] text@[k]) != 'e' && text@[k] != 'E' && !('1'
                                <= text@[k] <= '9'),
                    decreases chars.len() - i,
                {
                    let ch: char = chars[i];
                    assert(text@[i as int] == ch);
                    if '1' <= ch && ch <= '9' {
                        return true;
                    }
                    if ch == 'e' || ch == 'E' {
                        assert(!has_nonzero_digit(text@)) by {
                            if has_nonzero_digit(text@) {
                                let j = choose|j: int|
                                    #![trigger text@[j]]
                                    {
                                        &&& 0 <= j < text@.len()
                                        &&& '1' <= text@[j] <= '9'
                                        &&& forall|k: int|
                                            0 <= k < j ==> (#[trigger] text@[k]) != 'e' && text@[k]
                                                != 'E'
                                    };
                                assert(text@[i as int] == ch);
                                assert(j != i);
                                assert(j > i);
                            }
                        }
                        return false;
                    }
                    i = i + 1;
                }
                false
            },
        }
    }
}

/// A pointer that goes one token further leads from what the shorter one refers to on to its member
/// of that key, or to its item of that index.
pub proof fn law_pointers_go_step_by_step(json: Tree, pointer: Seq<char>, key: Seq<char>, n: nat)
    requires
        !key.contains('/'),
        !key.contains('~'),
        pointer.len() == 0 || pointer[0] == '/',
    ensures
        pointed(json, Seq::empty()) == Some(json),
        pointed(json, pointer + "/"@ + key) == match pointed(json, pointer) {
            Some(Tree::Obj(members)) => lookup(members, key),
            Some(Tree::Arr(items)) => match token_index(key) {
                Some(i) => if i < items.len() {
                    Some(items[i as int])
                } else {
                    None
                },
                None => None,
            },
            _ => None,
        },
        token_index(decimal_text(n)) == Some(n),
        token_index(key) matches Some(i) ==> key.len() > 0 && forall|k: int|
            0 <= k < key.len() ==> '0' <= #[trigger] key[k] <= '9',
{
    reveal_strlit("/");
    law_decimals_read_back(n);
    lemma_longer_pointer(json, pointer, key);
    lemma_plain_token(key);
}

proof fn lemma_longer_pointer(json: Tree, pointer: Seq<char>, key: Seq<char>)
    requires
        !key.contains('/'),
        pointer.len() == 0 || pointer[0] == '/',
    ensures
        pointed(json, pointer + "/"@ + key) == match pointed(json, pointer) {
            Some(at) => child(at, unescaped_token(key)),
            None => None,
        },
{
    reveal_strlit("/");
    let longer = pointer + "/"@ + key;
    lemma_pieces_of_longer(pointer, key);
    assert("/"@[0] == '/');
    assert(longer[0] == '/');
    let before = pieces(pointer, '/');
    law_pieces_join_again(pointer, '/');
    let after = pieces(longer, '/').drop_first();
    assert(after.drop_last() =~= before.drop_first());
    assert(after.last() == key);
    assert(descend(Some(json), after) == match descend(Some(json), after.drop_last()) {
        Some(at) => child(at, unescaped_token(key)),
        None => None,
    });
    if pointer.len() == 0 {
        assert(before.drop_first() =~= Seq::<Seq<char>>::empty());
        assert(descend(Some(json), before.drop_first()) == Some(json));
    }
}

proof fn lemma_pieces_of_longer(pointer: Seq<char>, key: Seq<char>)
    requires
        !key.contains('/'),
    ensures
        pieces(pointer + "/"@ + key, '/') == pieces(pointer, '/').push(key),
    decreases key.len(),
{
    reveal_strlit("/");
    let longer = pointer + "/"@ + key;
    if key.len() == 0 {
        assert(longer.drop_last() =~= pointer);
        assert(longer.last() == '/');
        assert(key =~= Seq::<char>::empty());
    } else {
        let front = key.drop_last();
        assert forall|c: char| front.contains(c) implies key.contains(c) by {
            let k = choose|k: int| 0 <= k < front.len() && front[k] == c;
            assert(key[k] == c);
        }
        lemma_pieces_of_longer(pointer, front);
        assert(longer.drop_last() =~= pointer + "/"@ + front);
        assert(longer.last() == key.last());
        assert(key[key.len() - 1] != '/');
        let rest = pieces(pointer, '/').push(front);
        assert(rest.drop_last() =~= pieces(pointer, '/'));
        assert(rest.last().push(key.last()) =~= key);
    }
}

proof fn lemma_plain_token(token: Seq<char>)
    requires
        !token.contains('~'),
    ensures
        unescaped_token(token) == token,
    decreases token.len(),
{
    if token.len() > 0 {
        let rest = token.skip(1);
        assert forall|c: char| rest.contains(c) implies token.contains(c) by {
            let k = choose|k: int| 0 <= k < rest.len() && rest[k] == c;
            assert(token[k + 1] == c);
        }
        lemma_plain_token(rest);
        assert(token[0] != '~');
        assert(seq![token[0]] + rest =~= token);
    } else {
        assert(unescaped_token(token) =~= token);
    }
}

/// In a token `~1` stands for a slash and `~0` for a tilde; a plain character stands for itself.
pub proof fn law_tokens_name_slashes_and_tildes(rest: Seq<char>, ch: char)
    requires
        ch != '~',
    ensures
        unescaped_token("~1"@ + rest) == "/"@ + unescaped_token(rest),
        unescaped_token("~0"@ + rest) == "~"@ + unescaped_token(rest),
        unescaped_token(seq![ch] + rest) == seq![ch] + unescaped_token(rest),
{
    reveal_strlit("~1");
    reveal_strlit("~0");
    reveal_strlit("~");
    reveal_strlit("/");
    assert(("~1"@ + rest).skip(2) =~= rest);
    assert(("~0"@ + rest).skip(2) =~= rest);
    assert((seq![ch] + rest).skip(1) =~= rest);
    assert("/"@ =~= seq!['/']);
    assert("~"@ =~= seq!['~']);
}

/// Printed texts stand between quotes. Nothing in between is a control character, and a quote or a
/// backslash of the text is printed behind a backslash; all other characters are printed as they
/// are.
pub proof fn law_printed_texts_are_escaped(s: Seq<char>, ch: char)
    ensures
        json_text(Tree::Str(Seq::empty())) == "\"\""@,
        json_text(Tree::Str(s.push(ch))) == json_text(Tree::Str(s)).drop_last() + escaped_char(ch)
            + "\""@,
        ch != '"' && ch != '\\' && ch >= ' ' ==> escaped_char(ch) == seq![ch],
        ch == '"' || ch == '\\' ==> escaped_char(ch) == seq!['\\', ch],
        ch < ' ' ==> escaped_char(ch).len() >= 2 && escaped_char(ch)[0] == '\\',
        forall|i: int| 0 <= i < escaped_char(ch).len() ==> #[trigger] escaped_char(ch)[i] >= ' ',
{
    reveal_strlit("\"\"");
    reveal_strlit("\"");
    assert(s.push(ch).drop_last() =~= s);
    assert(json_text(Tree::Str(Seq::empty())) =~= "\"\""@);
    assert(json_text(Tree::Str(s)).drop_last() =~= seq!['"'] + escaped(s));
    assert(json_text(Tree::Str(s.push(ch))) =~= json_text(Tree::Str(s)).drop_last()
        + escaped_char(ch) + "\""@);
}

/// Documents are printed compactly: lists between brackets and objects between braces, with commas
/// between neighbours, and each key before its value.
pub proof fn law_documents_are_printed_compactly(
    items: Seq<Tree>,
    item: Tree,
    members: Seq<(Seq<char>, Tree)>,
    key: Seq<char>,
    value: Tree,
)
    ensures
        json_text(Tree::Null) == "null"@,
        json_text(Tree::Bool(true)) == "true"@,
        json_text(Tree::Bool(false)) == "false"@,
        json_text(Tree::Arr(Seq::empty())) == "[]"@,
        json_text(Tree::Obj(Seq::empty())) == "{}"@,
        json_text(Tree::Arr(seq![item])) == "["@ + json_text(item) + "]"@,
        items.len() > 0 ==> json_text(Tree::Arr(items.push(item))) == json_text(
            Tree::Arr(items),
        ).drop_last() + ","@ + json_text(item) + "]"@,
        json_text(Tree::Obj(seq![(key, value)])) == "{"@ + json_text(Tree::Str(key)) + ":"@
            + json_text(value) + "}"@,
        members.len() > 0 ==> json_text(Tree::Obj(members.push((key, value)))) == json_text(
            Tree::Obj(members),
        ).drop_last() + ","@ + json_text(Tree::Str(key)) + ":"@ + json_text(value) + "}"@,
{
    reveal_strlit("null");
    reveal_strlit("true");
    reveal_strlit("false");
    reveal_strlit("[]");
    reveal_strlit("{}");
    reveal_strlit("[");
    reveal_strlit("]");
    reveal_strlit("{");
    reveal_strlit("}");
    reveal_strlit(",");
    reveal_strlit(":");
    assert(json_text(Tree::Null) =~= "null"@);
    assert(json_text(Tree::Bool(true)) =~= "true"@);
    assert(json_text(Tree::Bool(false)) =~= "false"@);
    assert(json_text(Tree::Arr(Seq::empty())) =~= "[]"@);
    assert(json_text(Tree::Obj(Seq::empty())) =~= "{}"@);
    assert(seq![item][0] == item);
    assert(items_text(seq![item]) == json_text(item));
    assert(json_text(Tree::Arr(seq![item])) =~= "["@ + json_text(item) + "]"@);
    assert(items.push(item).drop_last() =~= items);
    assert(json_text(Tree::Arr(items)).drop_last() =~= seq!['['] + items_text(items));
    if items.len() > 0 {
        assert(json_text(Tree::Arr(items.push(item))) =~= json_text(Tree::Arr(items)).drop_last()
            + ","@ + json_text(item) + "]"@);
    }
    assert(seq![(key, value)][0] == (key, value));
    assert(members_text(seq![(key, value)]) == quoted(key) + seq![':'] + json_text(value));
    assert(json_text(Tree::Obj(seq![(key, value)])) =~= "{"@ + json_text(Tree::Str(key)) + ":"@
        + json_text(value) + "}"@);
    assert(members.push((key, value)).drop_last() =~= members);
    assert(json_text(Tree::Obj(members)).drop_last() =~= seq!['{'] + members_text(members));
    if members.len() > 0 {
        assert(json_text(Tree::Obj(members.push((key, value)))) =~= json_text(
            Tree::Obj(members),
        ).drop_last() + ","@ + json_text(Tree::Str(key)) + ":"@ + json_text(value) + "}"@);
    }
}

/// A whole number is above zero as usual; a text that starts with a minus sign is not, nor is one
/// whose digits before any exponent are all zeros.
pub proof fn law_positive_numbers(text: Seq<char>, n: u64, m: i64, i: int)
    ensures
        is_positive(NumberValue::Unsigned(n)) <==> n > 0,
        is_positive(NumberValue::Negative(m)) <==> m > 0,
        text.len() > 0 && text[0] == '-' ==> !is_positive(NumberValue::Fraction(text)),
        text.len() > 0 && text[0] != '-' && 0 <= i < text.len() && '1' <= text[i] <= '9' && (forall|k: int|
            0 <= k < i ==> #[trigger] text[k] != 'e' && text[k] != 'E') ==> is_positive(
            NumberValue::Fraction(text),
        ),
        (forall|k: int| 0 <= k < text.len() ==> !('1' <= #[trigger] text[k] <= '9'))
            ==> !is_positive(NumberValue::Fraction(text)),
{
}

} // verus!
