//! Reading of configuration sections.
//!
//! A section is an object with the fields that its settings name. A list stands for the fields in
//! the order in which they are named.

use vstd::prelude::*;

use crate::dispatcher::plan::{ExecutorChoice, ExecutorKind, RemotePoolConfig};
use crate::dispatcher::queue::QueueKind;
use crate::json::{
    find_member, json_text, lemma_member_trees, lemma_trees, lookup, member_trees, opt_tree, tree,
    trees, Json, Number, NumberValue, Tree,
};
use crate::routing::opt_text;
use crate::text::{cat4, text_eq, texts};

verus! {

/// The words for a value that does not have the shape of its settings.
pub open spec fn shape_problem(target: Seq<char>, value: Tree) -> Seq<char> {
    "expected "@ + target + ", got "@ + json_text(value)
}

/// Says that a value does not have the shape of its settings.
pub fn misshapen(target: &str, value: &Json) -> (r: String)
    ensures
        r@ == shape_problem(target@, value@),
{
    cat4("expected ", target, ", got ", &value.to_text())
}

// ---------------------------------------------------------------------------------------------
// Fields
// ---------------------------------------------------------------------------------------------

/// The texts of a list of literals.
pub open spec fn strs(names: Seq<&str>) -> Seq<Seq<char>> {
    Seq::new(names.len(), |i: int| names[i]@)
}

/// Values under the names of their places.
pub open spec fn positional(names: Seq<Seq<char>>, items: Seq<Tree>) -> Seq<(Seq<char>, Tree)> {
    Seq::new(items.len(), |i: int| (names[i], items[i]))
}

/// The fields that a value gives.
pub open spec fn fields(value: Tree, names: Seq<Seq<char>>) -> Option<Seq<(Seq<char>, Tree)>> {
    match value {
        Tree::Obj(members) => Some(members),
        Tree::Arr(items) => if items.len() <= names.len() {
            Some(positional(names, items))
        } else {
            None
        },
        _ => None,
    }
}

/// Every field has one of the names.
pub open spec fn all_known(members: Seq<(Seq<char>, Tree)>, names: Seq<Seq<char>>) -> bool {
    forall|i: int| 0 <= i < members.len() ==> names.contains((#[trigger] members[i]).0)
}

/// The contents of optional fields.
pub open spec fn opt_members(members: Option<Vec<(String, Json)>>) -> Option<
    Seq<(Seq<char>, Tree)>,
> {
    match members {
        Some(members) => Some(member_trees(members@)),
        None => None,
    }
}

/// Reads the fields of a value.
pub fn fields_of(value: &Json, names: &Vec<&str>) -> (r: Option<Vec<(String, Json)>>)
    ensures
        opt_members(r) == fields(value@, strs(names@)),
{
    match value {
        Json::Object(members) => {
            let copy = value.copy();
            match copy {
                Json::Object(members) => Some(members),
                _ => None,
            }
        },
        Json::Array(items) => {
            if items.len() > names.len() {
                proof {
                    lemma_trees(items@);
                }
                return None;
            }
            let mut members: Vec<(String, Json)> = Vec::new();
            let mut i: usize = 0;
            while i < items.len()
                invariant
                    i <= items@.len() <= names@.len(),
                    members@.len() == i,
                    forall|k: int|
                        0 <= k < i ==> (#[trigger] members@[k]).0@ == names@[k]@
                            && members@[k].1@ == items@[k]@,
                decreases items@.len() - i,
            {
                members.push((names[i].to_owned(), items[i].copy()));
                i = i + 1;
            }
            proof {
                lemma_trees(items@);
                lemma_member_trees(members@);
                assert(member_trees(members@) =~= positional(strs(names@), trees(items@)));
            }
            Some(members)
        },
        _ => None,
    }
}

/// Whether every field has one of the names.
pub fn only_known(members: &Vec<(String, Json)>, names: &Vec<&str>) -> (r: bool)
    ensures
        r == all_known(member_trees(members@), strs(names@)),
{
    proof {
        lemma_member_trees(members@);
    }
    let mut i: usize = 0;
    while i < members.len()
        invariant
            i <= members@.len(),
            member_trees(members@).len() == members@.len(),
            forall|k: int|
                0 <= k < members@.len() ==> (#[trigger] member_trees(members@)[k]).0
                    == members@[k].0@,
            forall|k: int|
                0 <= k < i ==> strs(names@).contains((#[trigger] member_trees(members@)[k]).0),
        decreases members@.len() - i,
    {
        let mut known = false;
        let mut j: usize = 0;
        while j < names.len()
            invariant
                i < members@.len(),
                j <= names@.len(),
                known == exists|k: int|
                    0 <= k < j && (#[trigger] strs(names@)[k]) == members@[i as int].0@,
            decreases names@.len() - j,
        {
            assert(strs(names@)[j as int] == names@[j as int]@);
            if text_eq(names[j], &members[i].0) {
                known = true;
            }
            j = j + 1;
        }
        if !known {
            assert(!strs(names@).contains(member_trees(members@)[i as int].0));
            return false;
        }
        assert(strs(names@).contains(member_trees(members@)[i as int].0));
        i = i + 1;
    }
    true
}

/// A field that may be left out or null.
pub open spec fn opt_string(field: Option<Tree>) -> Option<Option<Seq<char>>> {
    match field {
        None | Some(Tree::Null) => Some(None),
        Some(Tree::Str(s)) => Some(Some(s)),
        _ => None,
    }
}

/// A field that must be there.
pub open spec fn req_string(field: Option<Tree>) -> Option<Seq<char>> {
    match field {
        Some(Tree::Str(s)) => Some(s),
        _ => None,
    }
}

/// A field that may be left out.
pub open spec fn string_or(field: Option<Tree>, default: Seq<char>) -> Option<Seq<char>> {
    match field {
        None => Some(default),
        Some(Tree::Str(s)) => Some(s),
        _ => None,
    }
}

pub open spec fn opt_number(field: Option<Tree>) -> Option<Option<NumberValue>> {
    match field {
        None | Some(Tree::Null) => Some(None),
        Some(Tree::Number(n)) => Some(Some(n)),
        _ => None,
    }
}

pub open spec fn number_or(field: Option<Tree>, default: NumberValue) -> Option<NumberValue> {
    match field {
        None => Some(default),
        Some(Tree::Number(n)) => Some(n),
        _ => None,
    }
}

pub open spec fn opt_uint(field: Option<Tree>, max: u64) -> Option<Option<u64>> {
    match field {
        None | Some(Tree::Null) => Some(None),
        Some(Tree::Number(NumberValue::Unsigned(n))) => if n <= max {
            Some(Some(n))
        } else {
            None
        },
        _ => None,
    }
}

pub open spec fn uint_or(field: Option<Tree>, max: u64, default: u64) -> Option<u64> {
    match field {
        None => Some(default),
        Some(Tree::Number(NumberValue::Unsigned(n))) => if n <= max {
            Some(n)
        } else {
            None
        },
        _ => None,
    }
}

/// A field of any shape that may be left out or null.
pub open spec fn opt_value(field: Option<Tree>) -> Option<Tree> {
    match field {
        None | Some(Tree::Null) => None,
        Some(value) => Some(value),
    }
}

/// Every value is a text.
pub open spec fn all_texts(items: Seq<Tree>) -> bool {
    forall|i: int| 0 <= i < items.len() ==> (#[trigger] items[i]) is Str
}

/// The texts of values.
pub open spec fn item_texts(items: Seq<Tree>) -> Seq<Seq<char>> {
    Seq::new(items.len(), |i: int| items[i]->Str_0)
}

/// A list of texts.
pub open spec fn string_list(value: Tree) -> Option<Seq<Seq<char>>> {
    match value {
        Tree::Arr(items) => if all_texts(items) {
            Some(item_texts(items))
        } else {
            None
        },
        _ => None,
    }
}

pub open spec fn opt_number_value(n: Option<Number>) -> Option<NumberValue> {
    match n {
        Some(n) => Some(n@),
        None => None,
    }
}

pub open spec fn opt_json(value: Option<Json>) -> Option<Tree> {
    match value {
        Some(value) => Some(value@),
        None => None,
    }
}

pub fn read_opt_string(field: Option<&Json>) -> (r: Option<Option<String>>)
    ensures
        match r {
            Some(s) => opt_string(opt_tree(field)) == Some(opt_text(s)),
            None => opt_string(opt_tree(field)) is None,
        },
{
    match field {
        None | Some(Json::Null) => Some(None),
        Some(Json::Str(s)) => Some(Some(s.clone())),
        _ => None,
    }
}

pub fn read_string(field: Option<&Json>) -> (r: Option<String>)
    ensures
        opt_text(r) == req_string(opt_tree(field)),
{
    match field {
        Some(Json::Str(s)) => Some(s.clone()),
        _ => None,
    }
}

pub fn read_string_or(field: Option<&Json>, default: &str) -> (r: Option<String>)
    ensures
        opt_text(r) == string_or(opt_tree(field), default@),
{
    match field {
        None => Some(default.to_owned()),
        Some(Json::Str(s)) => Some(s.clone()),
        _ => None,
    }
}

pub fn read_opt_number(field: Option<&Json>) -> (r: Option<Option<Number>>)
    ensures
        match r {
            Some(n) => opt_number(opt_tree(field)) == Some(opt_number_value(n)),
            None => opt_number(opt_tree(field)) is None,
        },
{
    match field {
        None | Some(Json::Null) => Some(None),
        Some(Json::Number(n)) => Some(Some(n.copy())),
        _ => None,
    }
}

pub fn read_number_or(field: Option<&Json>, default: u64) -> (r: Option<Number>)
    ensures
        opt_number_value(r) == number_or(opt_tree(field), NumberValue::Unsigned(default)),
{
    match field {
        None => Some(Number::Unsigned(default)),
        Some(Json::Number(n)) => Some(n.copy()),
        _ => None,
    }
}

pub fn read_opt_uint(field: Option<&Json>, max: u64) -> (r: Option<Option<u64>>)
    ensures
        r == opt_uint(opt_tree(field), max),
{
    match field {
        None | Some(Json::Null) => Some(None),
        Some(Json::Number(Number::Unsigned(n))) => if *n <= max {
            Some(Some(*n))
        } else {
            None
        },
        _ => None,
    }
}

pub fn read_uint_or(field: Option<&Json>, max: u64, default: u64) -> (r: Option<u64>)
    ensures
        r == uint_or(opt_tree(field), max, default),
{
    match field {
        None => Some(default),
        Some(Json::Number(Number::Unsigned(n))) => if *n <= max {
            Some(*n)
        } else {
            None
        },
        _ => None,
    }
}

pub fn read_opt_value(field: Option<&Json>) -> (r: Option<Json>)
    ensures
        opt_json(r) == opt_value(opt_tree(field)),
{
    match field {
        None | Some(Json::Null) => None,
        Some(value) => Some(value.copy()),
    }
}

pub fn read_string_list(value: &Json) -> (r: Option<Vec<String>>)
    ensures
        match r {
            Some(list) => string_list(value@) == Some(texts(list@)),
            None => string_list(value@) is None,
        },
{
    match value {
        Json::Array(items) => {
            proof {
                lemma_trees(items@);
            }
            let mut list: Vec<String> = Vec::new();
            let mut i: usize = 0;
            while i < items.len()
                invariant
                    i <= items@.len(),
                    list@.len() == i,
                    *value == Json::Array(*items),
                    trees(items@).len() == items@.len(),
                    forall|k: int|
                        0 <= k < items@.len() ==> #[trigger] trees(items@)[k] == tree(items@[k]),
                    forall|k: int|
                        0 <= k < i ==> (#[trigger] trees(items@)[k]) == Tree::Str(list@[k]@),
                decreases items@.len() - i,
            {
                assert(trees(items@)[i as int] == tree(items@[i as int]));
                match &items[i] {
                    Json::Str(s) => {
                        list.push(s.clone());
                    },
                    _ => {
                        assert(!(trees(items@)[i as int] is Str));
                        return None;
                    },
                }
                i = i + 1;
            }
            proof {
                assert(texts(list@) =~= item_texts(trees(items@)));
            }
            Some(list)
        },
        _ => None,
    }
}

// ---------------------------------------------------------------------------------------------
// Settings with a type
// ---------------------------------------------------------------------------------------------

/// Members other than those with a key.
pub open spec fn members_without(members: Seq<(Seq<char>, Tree)>, key: Seq<char>) -> Seq<
    (Seq<char>, Tree),
>
    decreases members.len(),
{
    if members.len() == 0 {
        Seq::empty()
    } else {
        let rest = members_without(members.drop_last(), key);
        if members.last().0 == key {
            rest
        } else {
            rest.push(members.last())
        }
    }
}

/// The type that a value names, and the rest of the value.
pub open spec fn tagged(value: Tree) -> Option<(Seq<char>, Tree)> {
    match value {
        Tree::Obj(members) => match lookup(members, "type"@) {
            Some(Tree::Str(tag)) => Some((tag, Tree::Obj(members_without(members, "type"@)))),
            _ => None,
        },
        Tree::Arr(items) => if items.len() > 0 {
            match items[0] {
                Tree::Str(tag) => Some((tag, Tree::Arr(items.drop_first()))),
                _ => None,
            }
        } else {
            None
        },
        _ => None,
    }
}

/// Copies the members other than those with a key.
pub fn copy_without(members: &Vec<(String, Json)>, key: &str) -> (r: Vec<(String, Json)>)
    ensures
        member_trees(r@) == members_without(member_trees(members@), key@),
{
    let ghost all = member_trees(members@);
    proof {
        lemma_member_trees(members@);
    }
    let mut rest: Vec<(String, Json)> = Vec::new();
    let mut i: usize = 0;
    assert(member_trees(rest@) =~= members_without(all.take(0), key@));
    while i < members.len()
        invariant
            i <= members@.len(),
            all == member_trees(members@),
            all.len() == members@.len(),
            forall|k: int|
                0 <= k < members@.len() ==> (#[trigger] all[k]).0 == members@[k].0@ && all[k].1
                    == tree(members@[k].1),
            member_trees(rest@) == members_without(all.take(i as int), key@),
        decreases members@.len() - i,
    {
        proof {
            assert(all.take(i + 1).drop_last() =~= all.take(i as int));
            assert(all.take(i + 1).last() == all[i as int]);
        }
        if !text_eq(&members[i].0, key) {
            let ghost before = rest@;
            rest.push((members[i].0.clone(), members[i].1.copy()));
            proof {
                assert(rest@.drop_last() =~= before);
                assert(member_trees(rest@) == member_trees(before).push(
                    (rest@.last().0@, tree(rest@.last().1)),
                ));
                assert((rest@.last().0@, tree(rest@.last().1)) == all[i as int]);
            }
        }
        i = i + 1;
    }
    assert(all.take(i as int) =~= all);
    rest
}

/// Takes the type off a value.
pub fn split_tag(value: &Json) -> (r: Option<(String, Json)>)
    ensures
        match r {
            Some((tag, rest)) => tagged(value@) == Some((tag@, rest@)),
            None => tagged(value@) is None,
        },
{
    match value {
        Json::Object(members) => match find_member(members, "type") {
            Some(Json::Str(tag)) => {
                let rest = copy_without(members, "type");
                Some((tag.clone(), Json::Object(rest)))
            },
            _ => None,
        },
        Json::Array(items) => {
            proof {
                lemma_trees(items@);
            }
            if items.len() == 0 {
                return None;
            }
            let tag = match &items[0] {
                Json::Str(tag) => tag.clone(),
                _ => return None,
            };
            let mut rest: Vec<Json> = Vec::new();
            let mut i: usize = 1;
            while i < items.len()
                invariant
                    1 <= i <= items@.len(),
                    rest@.len() == i - 1,
                    forall|k: int| 0 <= k < i - 1 ==> (#[trigger] rest@[k])@ == items@[k + 1]@,
                decreases items@.len() - i,
            {
                rest.push(items[i].copy());
                i = i + 1;
            }
            proof {
                lemma_trees(rest@);
                assert(trees(rest@) =~= trees(items@).drop_first()) by {
                    assert forall|k: int| 0 <= k < rest@.len() implies trees(rest@)[k] == trees(
                        items@,
                    ).drop_first()[k] by {
                        assert(rest@[k]@ == items@[k + 1]@);
                    }
                }
            }
            Some((tag, Json::Array(rest)))
        },
        _ => None,
    }
}

// ---------------------------------------------------------------------------------------------
// Dispatcher settings
// ---------------------------------------------------------------------------------------------

/// The queue of a name.
pub open spec fn queue_named(name: Seq<char>) -> Option<QueueKind> {
    if name == "fifo"@ {
        Some(QueueKind::Fifo)
    } else if name == "cost_weighted"@ {
        Some(QueueKind::CostWeighted)
    } else if name == "age_priority"@ {
        Some(QueueKind::AgePriority)
    } else {
        None
    }
}

/// A queue by its name, or by its name with nothing behind it.
pub open spec fn queue_kind(value: Tree) -> Option<QueueKind> {
    match value {
        Tree::Str(name) => queue_named(name),
        Tree::Obj(members) => if members.len() == 1 && members[0].1 is Null {
            queue_named(members[0].0)
        } else {
            None
        },
        _ => None,
    }
}

fn read_queue_name(name: &str) -> (r: Option<QueueKind>)
    ensures
        r == queue_named(name@),
{
    if text_eq(name, "fifo") {
        Some(QueueKind::Fifo)
    } else if text_eq(name, "cost_weighted") {
        Some(QueueKind::CostWeighted)
    } else if text_eq(name, "age_priority") {
        Some(QueueKind::AgePriority)
    } else {
        None
    }
}

/// Reads the choice of a queue.
pub fn read_queue_kind(value: &Json) -> (r: Option<QueueKind>)
    ensures
        r == queue_kind(value@),
{
    match value {
        Json::Str(name) => read_queue_name(name),
        Json::Object(members) => {
            proof {
                lemma_member_trees(members@);
            }
            if members.len() != 1 {
                return None;
            }
            match &members[0].1 {
                Json::Null => read_queue_name(&members[0].0),
                _ => None,
            }
        },
        _ => None,
    }
}

/// The names of the fields of a local pool.
pub open spec fn pool_names() -> Seq<Seq<char>> {
    seq!["concurrency"@]
}

/// The timeout of a remote pool: the only field that it has, one minute if it is left out.
pub open spec fn heartbeat_timeout(rest: Tree) -> Option<NumberValue> {
    match rest {
        Tree::Obj(members) => if all_known(members, seq!["heartbeat_timeout_secs"@]) {
            number_or(lookup(members, "heartbeat_timeout_secs"@), NumberValue::Unsigned(60))
        } else {
            None
        },
        _ => None,
    }
}

/// The number of workers of a local pool, if it is given.
pub open spec fn pool_concurrency(rest: Tree) -> Option<Option<u64>> {
    match fields(rest, pool_names()) {
        Some(members) => opt_uint(lookup(members, "concurrency"@), usize::MAX as u64),
        None => None,
    }
}

/// The number of workers as a size.
pub open spec fn as_size(n: Option<u64>) -> Option<usize> {
    match n {
        Some(n) => Some(n as usize),
        None => None,
    }
}

/// An executor by its type and the settings of that type.
pub open spec fn executor_kind(value: Tree) -> Option<ExecutorChoice> {
    match tagged(value) {
        None => None,
        Some((tag, rest)) => if tag == "async_pool"@ {
            match pool_concurrency(rest) {
                Some(n) => Some(ExecutorChoice::AsyncPool { concurrency: as_size(n) }),
                None => None,
            }
        } else if tag == "thread_pool"@ {
            match pool_concurrency(rest) {
                Some(n) => Some(ExecutorChoice::ThreadPool { concurrency: as_size(n) }),
                None => None,
            }
        } else if tag == "remote_pool"@ {
            match heartbeat_timeout(rest) {
                Some(n) => Some(ExecutorChoice::RemotePool { heartbeat_timeout_secs: n }),
                None => None,
            }
        } else {
            None
        },
    }
}

fn read_concurrency(rest: &Json) -> (r: Option<Option<usize>>)
    ensures
        match r {
            Some(n) => pool_concurrency(rest@) is Some && n == as_size(pool_concurrency(rest@)->0),
            None => pool_concurrency(rest@) is None,
        },
{
    let names: Vec<&str> = vec!["concurrency"];
    assert(strs(names@) =~= pool_names());
    let members = match fields_of(rest, &names) {
        Some(members) => members,
        None => return None,
    };
    match read_opt_uint(find_member(&members, "concurrency"), usize::MAX as u64) {
        Some(Some(n)) => Some(Some(n as usize)),
        Some(None) => Some(None),
        None => None,
    }
}

/// Reads the choice of an executor.
pub fn read_executor_kind(value: &Json) -> (r: Option<ExecutorKind>)
    ensures
        match r {
            Some(kind) => executor_kind(value@) == Some(kind@),
            None => executor_kind(value@) is None,
        },
{
    let (tag, rest) = match split_tag(value) {
        Some((tag, rest)) => (tag, rest),
        None => return None,
    };
    if text_eq(&tag, "async_pool") {
        match read_concurrency(&rest) {
            Some(concurrency) => Some(ExecutorKind::AsyncPool { concurrency }),
            None => None,
        }
    } else if text_eq(&tag, "thread_pool") {
        match read_concurrency(&rest) {
            Some(concurrency) => Some(ExecutorKind::ThreadPool { concurrency }),
            None => None,
        }
    } else if text_eq(&tag, "remote_pool") {
        let members = match rest {
            Json::Object(members) => members,
            _ => return None,
        };
        let names: Vec<&str> = vec!["heartbeat_timeout_secs"];
        assert(strs(names@) =~= seq!["heartbeat_timeout_secs"@]);
        if !only_known(&members, &names) {
            return None;
        }
        match read_number_or(find_member(&members, "heartbeat_timeout_secs"), 60) {
            Some(heartbeat_timeout_secs) => Some(
                ExecutorKind::RemotePool { config: RemotePoolConfig { heartbeat_timeout_secs } },
            ),
            None => None,
        }
    } else {
        None
    }
}

/// Leaving the members with a key out leaves every other key with its value.
pub proof fn law_other_members_stay(
    members: Seq<(Seq<char>, Tree)>,
    key: Seq<char>,
    other: Seq<char>,
)
    ensures
        lookup(members_without(members, key), key) is None,
        other != key ==> lookup(members_without(members, key), other) == lookup(members, other),
    decreases members.len(),
{
    if members.len() > 0 {
        let front = members.drop_last();
        let rest = members_without(front, key);
        law_other_members_stay(front, key, other);
        lemma_lookup_push(front, members.last(), other);
        assert(front.push(members.last()) =~= members);
        if members.last().0 != key {
            lemma_lookup_push(rest, members.last(), other);
            lemma_lookup_push(rest, members.last(), key);
        }
    }
}

proof fn lemma_lookup_push(
    members: Seq<(Seq<char>, Tree)>,
    member: (Seq<char>, Tree),
    key: Seq<char>,
)
    ensures
        lookup(members.push(member), key) == match lookup(members, key) {
            Some(value) => Some(value),
            None => if member.0 == key {
                Some(member.1)
            } else {
                None
            },
        },
    decreases members.len(),
{
    let longer = members.push(member);
    if members.len() > 0 {
        lemma_lookup_push(members.drop_first(), member, key);
        assert(longer.drop_first() =~= members.drop_first().push(member));
        assert(longer[0] == members[0]);
    } else {
        assert(longer[0] == member);
        assert(lookup(longer.drop_first(), key) is None);
    }
}

/// Each queue has one name, and nothing else names a queue.
pub proof fn law_queues_have_names(name: Seq<char>)
    ensures
        queue_named(name) == Some(QueueKind::Fifo) <==> name == "fifo"@,
        name == "cost_weighted"@ ==> queue_named(name) == Some(QueueKind::CostWeighted),
        name == "age_priority"@ ==> queue_named(name) == Some(QueueKind::AgePriority),
        queue_named(name) is Some <==> name == "fifo"@ || name == "cost_weighted"@ || name
            == "age_priority"@,
        queue_kind(Tree::Str(name)) == queue_named(name),
{
    reveal_strlit("fifo");
    reveal_strlit("cost_weighted");
    reveal_strlit("age_priority");
    assert("fifo"@.len() == 4 && "cost_weighted"@.len() == 13 && "age_priority"@.len() == 12);
}

/// Each executor is named by its type. A local pool may say how many workers it has, and a remote
/// pool after how many seconds of silence it gives a worker up, sixty if it does not say.
pub proof fn law_executors_have_types(members: Seq<(Seq<char>, Tree)>)
    ensures
        executor_kind(Tree::Obj(members)) matches Some(choice) ==> ({
            let of = lookup(members, "type"@);
            let workers = lookup(members, "concurrency"@);
            let silence = lookup(members, "heartbeat_timeout_secs"@);
            match choice {
                ExecutorChoice::AsyncPool { concurrency } => of == Some(Tree::Str("async_pool"@))
                    && match concurrency {
                    None => workers is None || workers == Some(Tree::Null),
                    Some(n) => workers == Some(Tree::Number(NumberValue::Unsigned(n as u64))),
                },
                ExecutorChoice::ThreadPool { concurrency } => of == Some(Tree::Str("thread_pool"@))
                    && match concurrency {
                    None => workers is None || workers == Some(Tree::Null),
                    Some(n) => workers == Some(Tree::Number(NumberValue::Unsigned(n as u64))),
                },
                ExecutorChoice::RemotePool { heartbeat_timeout_secs } => of == Some(
                    Tree::Str("remote_pool"@),
                ) && match silence {
                    None => heartbeat_timeout_secs == NumberValue::Unsigned(60),
                    Some(value) => value == Tree::Number(heartbeat_timeout_secs),
                },
            }
        }),
        lookup(members, "type"@) == Some(Tree::Str("async_pool"@)) && lookup(
            members,
            "concurrency"@,
        ) is None ==> executor_kind(Tree::Obj(members)) == Some(
            ExecutorChoice::AsyncPool { concurrency: None },
        ),
{
    reveal_strlit("type");
    reveal_strlit("concurrency");
    reveal_strlit("heartbeat_timeout_secs");
    assert("type"@.len() == 4 && "concurrency"@.len() == 11 && "heartbeat_timeout_secs"@.len()
        == 22);
    law_other_members_stay(members, "type"@, "concurrency"@);
    law_other_members_stay(members, "type"@, "heartbeat_timeout_secs"@);
}

} // verus!
