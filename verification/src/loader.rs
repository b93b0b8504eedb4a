//! Batching of upstream calls that differ by one key: keys that arrive
//! within a window are sent as one call, and the response is split among
//! them.

use vstd::prelude::*;

use crate::context::{path_texts, select};
use crate::eval::{EvalError, key_of, key_text};
use crate::ir::IO;
use crate::json::{Json, JsonValue};
use crate::names::str_eq;
use crate::request::Request;
use crate::text::{append_chars, chars_of, contains, contains_text, string_of};

verus! {

/// The mathematical content of a [`Loader`]: the largest batch it sends, 0
/// for no limit, and the keys that wait for the window to close.
pub ghost struct LoaderModel {
    pub max_batch_size: nat,
    pub pending: Seq<Seq<char>>,
}

impl LoaderModel {
    /// The arrival of `key`: the state after it, and the batch to send at
    /// once, if the arrival has filled one. A key that already waits is
    /// not added again.
    pub open spec fn load(self, key: Seq<char>) -> (LoaderModel, Option<Seq<Seq<char>>>) {
        if self.pending.contains(key) {
            (self, None)
        } else if self.max_batch_size > 0 && self.pending.len() + 1 >= self.max_batch_size {
            (LoaderModel { pending: Seq::empty(), ..self }, Some(self.pending.push(key)))
        } else {
            (LoaderModel { pending: self.pending.push(key), ..self }, None)
        }
    }

    /// The batches sent while the keys arrive one after the other, and the
    /// state after the last of them.
    pub open spec fn load_all(self, keys: Seq<Seq<char>>) -> (LoaderModel, Seq<Seq<Seq<char>>>)
        decreases keys.len(),
    {
        if keys.len() == 0 {
            (self, Seq::empty())
        } else {
            let (before, sent) = self.load_all(keys.drop_last());
            match before.load(keys.last()) {
                (after, Some(batch)) => (after, sent.push(batch)),
                (after, None) => (after, sent),
            }
        }
    }

    /// All batches sent for keys that arrive within one window: those sent
    /// while they arrive, and at the close of the window the keys that
    /// still wait, if any.
    pub open spec fn window(self, keys: Seq<Seq<char>>) -> Seq<Seq<Seq<char>>> {
        let (after, sent) = self.load_all(keys);
        if after.pending.len() > 0 {
            sent.push(after.pending)
        } else {
            sent
        }
    }
}

/// The batches one after the other.
pub open spec fn flattened(batches: Seq<Seq<Seq<char>>>) -> Seq<Seq<char>>
    decreases batches.len(),
{
    if batches.len() == 0 {
        Seq::empty()
    } else {
        flattened(batches.drop_last()) + batches.last()
    }
}

/// The least number of batches of at most `max` keys that hold `n` keys:
/// `n / max`, rounded up.
pub open spec fn batches_needed(n: nat, max: nat) -> nat
    decreases n,
{
    if n == 0 || max == 0 {
        0
    } else if n <= max {
        1
    } else {
        1 + batches_needed((n - max) as nat, max)
    }
}

proof fn lemma_batches_needed(full: nat, rest: nat, max: nat)
    requires
        max > 0,
        rest < max,
    ensures
        batches_needed(full * max + rest, max) == full + if rest > 0 {
            1nat
        } else {
            0nat
        },
    decreases full,
{
    if full == 0 {
        assert(full * max == 0) by (nonlinear_arith)
            requires
                full == 0,
        ;
    } else {
        assert((full - 1) * max == full * max - max) by (nonlinear_arith);
        assert(full * max >= max) by (nonlinear_arith)
            requires
                full >= 1,
                max > 0,
        ;
        lemma_batches_needed((full - 1) as nat, rest, max);
        if full * max + rest <= max {
            assert(full == 1 && rest == 0) by (nonlinear_arith)
                requires
                    full * max + rest <= max,
                    full >= 1,
                    max > 0,
                    (full - 1) * max == full * max - max,
            ;
        }
    }
}

proof fn lemma_load_all(m: LoaderModel, keys: Seq<Seq<char>>)
    requires
        m.max_batch_size > 0,
        m.pending.len() == 0,
        keys.no_duplicates(),
    ensures
        m.load_all(keys).0.max_batch_size == m.max_batch_size,
        m.load_all(keys).1.len() * m.max_batch_size + m.load_all(keys).0.pending.len()
            == keys.len(),
        m.load_all(keys).0.pending.len() < m.max_batch_size,
        flattened(m.load_all(keys).1) + m.load_all(keys).0.pending == keys,
        forall|i: int|
            0 <= i < m.load_all(keys).1.len() ==> (#[trigger] m.load_all(keys).1[i]).len()
                == m.max_batch_size,
    decreases keys.len(),
{
    let max = m.max_batch_size;
    if keys.len() == 0 {
        assert(flattened(Seq::<Seq<Seq<char>>>::empty()) + Seq::<Seq<char>>::empty() =~= keys);
        assert(0 * max == 0) by (nonlinear_arith);
    } else {
        let front = keys.drop_last();
        let key = keys.last();
        assert(front.no_duplicates());
        lemma_load_all(m, front);
        let (before, sent) = m.load_all(front);
        assert(!before.pending.contains(key)) by {
            if before.pending.contains(key) {
                let all = flattened(sent) + before.pending;
                let i = choose|i: int| 0 <= i < before.pending.len() && before.pending[i] == key;
                assert(all[flattened(sent).len() + i] == key);
                assert(front.contains(key));
                let j = choose|j: int| 0 <= j < front.len() && front[j] == key;
                assert(keys[j] == keys[keys.len() - 1]);
            }
        }
        let count = sent.len();
        assert((count + 1) * max == count * max + max) by (nonlinear_arith);
        if before.pending.len() + 1 >= max {
            let batch = before.pending.push(key);
            assert(sent.push(batch).drop_last() =~= sent);
            assert(flattened(sent.push(batch)) + Seq::<Seq<char>>::empty() =~= (flattened(sent)
                + before.pending).push(key));
            assert((flattened(sent) + before.pending).push(key) =~= keys);
        } else {
            assert(flattened(sent) + before.pending.push(key) =~= (flattened(sent)
                + before.pending).push(key));
            assert((flattened(sent) + before.pending).push(key) =~= keys);
        }
    }
}

/// Distinct keys that arrive within one window at a loader with nothing
/// pending are sent in the least number of batches that can hold them;
/// the batches hold every key once, in the order of arrival, and none
/// holds more than the largest batch allows.
pub proof fn lemma_batch_coverage(m: LoaderModel, keys: Seq<Seq<char>>)
    requires
        m.max_batch_size > 0,
        m.pending.len() == 0,
        keys.no_duplicates(),
    ensures
        m.window(keys).len() == batches_needed(keys.len(), m.max_batch_size),
        flattened(m.window(keys)) == keys,
        forall|i: int|
            0 <= i < m.window(keys).len() ==> 0 < (#[trigger] m.window(keys)[i]).len()
                <= m.max_batch_size,
{
    lemma_load_all(m, keys);
    let (after, sent) = m.load_all(keys);
    lemma_batches_needed(sent.len(), after.pending.len(), m.max_batch_size);
    if after.pending.len() > 0 {
        assert(sent.push(after.pending).drop_last() =~= sent);
    } else {
        assert(flattened(sent) + after.pending =~= flattened(sent));
    }
}

/// The keys that wait for one upstream call.
pub struct Loader {
    max_batch_size: usize,
    pending: Vec<String>,
}

impl View for Loader {
    type V = LoaderModel;

    closed spec fn view(&self) -> LoaderModel {
        LoaderModel {
            max_batch_size: self.max_batch_size as nat,
            pending: path_texts(self.pending@),
        }
    }
}

impl Loader {
    /// A loader with nothing pending, which sends a batch as soon as it
    /// holds `max_batch_size` keys; with 0 it sends only when told to.
    pub fn new(max_batch_size: usize) -> (r: Self)
        ensures
            r@.max_batch_size == max_batch_size,
            r@.pending.len() == 0,
    {
        Loader { max_batch_size, pending: Vec::new() }
    }

    /// The number of keys that wait.
    pub fn pending_len(&self) -> (n: usize)
        ensures
            n == self@.pending.len(),
    {
        self.pending.len()
    }

    /// Takes in `key`. Where this fills a batch, the batch is handed back
    /// to be sent at once, and nothing is left pending.
    pub fn load(&mut self, key: String) -> (batch: Option<Vec<String>>)
        ensures
            final(self)@ == old(self)@.load(key@).0,
            match batch {
                Some(keys) => old(self)@.load(key@).1 == Some(path_texts(keys@)),
                None => old(self)@.load(key@).1 is None,
            },
    {
        let ghost before = path_texts(self.pending@);
        let mut i: usize = 0;
        while i < self.pending.len()
            invariant
                i <= self.pending.len(),
                *self == *old(self),
                before == path_texts(self.pending@),
                forall|j: int| 0 <= j < i ==> before[j] != key@,
            decreases self.pending.len() - i,
        {
            if str_eq(self.pending[i].as_str(), key.as_str()) {
                assert(before[i as int] == key@);
                return None;
            }
            i += 1;
        }
        self.pending.push(key);
        assert(path_texts(self.pending@) =~= before.push(key@));
        if self.max_batch_size > 0 && self.pending.len() >= self.max_batch_size {
            let mut batch: Vec<String> = Vec::new();
            std::mem::swap(&mut self.pending, &mut batch);
            assert(path_texts(self.pending@) =~= Seq::<Seq<char>>::empty());
            Some(batch)
        } else {
            None
        }
    }

    /// Closes the window: hands back the keys that wait, to be sent as one
    /// call, and leaves nothing pending.
    pub fn flush(&mut self) -> (batch: Vec<String>)
        ensures
            path_texts(batch@) == old(self)@.pending,
            final(self)@.pending.len() == 0,
            final(self)@.max_batch_size == old(self)@.max_batch_size,
    {
        let mut batch: Vec<String> = Vec::new();
        std::mem::swap(&mut self.pending, &mut batch);
        batch
    }
}

/// The mathematical values of a list of JSON values.
pub open spec fn values(items: Seq<Json>) -> Seq<JsonValue> {
    Seq::new(items.len(), |i: int| items[i]@)
}

/// The element `e` of a batched response belongs to the request with the
/// key `key`: what it has at the path `path` gives that key.
pub open spec fn element_matches(e: JsonValue, path: Seq<Seq<char>>, key: Seq<char>) -> bool {
    match select(e, path) {
        Some(v) => key_text(v) == Some(key),
        None => false,
    }
}

/// The elements of a batched response that belong to the request with the
/// key `key`, in their order.
pub open spec fn matching(items: Seq<JsonValue>, path: Seq<Seq<char>>, key: Seq<char>) -> Seq<
    JsonValue,
>
    decreases items.len(),
{
    if items.len() == 0 {
        Seq::empty()
    } else if element_matches(items.last(), path, key) {
        matching(items.drop_last(), path, key).push(items.last())
    } else {
        matching(items.drop_last(), path, key)
    }
}

/// What the request with the key `key` receives of a batched response:
/// null where no element belongs to it; else for a list field all elements
/// that belong to it, and for any other field the first of them.
pub open spec fn share(
    items: Seq<JsonValue>,
    path: Seq<Seq<char>>,
    key: Seq<char>,
    is_list: bool,
) -> JsonValue {
    let found = matching(items, path, key);
    if found.len() == 0 {
        JsonValue::Null
    } else if is_list {
        JsonValue::Array(found)
    } else {
        found[0]
    }
}

/// What each request of a batch receives of the response, in the order of
/// the keys. A response that is no list cannot be split.
pub open spec fn partitioned(
    response: JsonValue,
    path: Seq<Seq<char>>,
    keys: Seq<Seq<char>>,
    is_list: bool,
) -> Result<Seq<JsonValue>, EvalError> {
    match response {
        JsonValue::Array(items) => Ok(
            Seq::new(keys.len(), |i: int| share(items, path, keys[i], is_list)),
        ),
        _ => Err(EvalError::BatchPartition),
    }
}

fn share_of(items: &Vec<Json>, group_by: &Vec<String>, key: &str, is_list: bool) -> (r: Json)
    ensures
        r@ == share(values(items@), path_texts(group_by@), key@, is_list),
{
    let ghost all = values(items@);
    let ghost path = path_texts(group_by@);
    let mut found: Vec<Json> = Vec::new();
    let mut i: usize = 0;
    while i < items.len()
        invariant
            i <= items.len(),
            all == values(items@),
            path == path_texts(group_by@),
            values(found@) == matching(all.take(i as int), path, key@),
        decreases items.len() - i,
    {
        proof {
            let next = all.take(i + 1);
            assert(next.drop_last() =~= all.take(i as int));
            assert(next.last() == items@[i as int]@);
        }
        let belongs = match items[i].get_path(group_by) {
            Some(v) => match key_of(v) {
                Some(k) => str_eq(k.as_str(), key),
                None => false,
            },
            None => false,
        };
        if belongs {
            let ghost before = values(found@);
            found.push(items[i].clone());
            assert(values(found@) =~= before.push(items@[i as int]@));
        }
        i += 1;
    }
    assert(all.take(items.len() as int) =~= all);
    if found.len() == 0 {
        Json::Null
    } else if is_list {
        let r = Json::Array(found);
        assert(r@->Array_0 =~= values(found@));
        r
    } else {
        assert(values(found@)[0] == found@[0]@);
        found[0].clone()
    }
}

/// Splits the response to a batch among the requests of the batch.
pub fn partition(response: &Json, group_by: &Vec<String>, keys: &Vec<String>, is_list: bool) -> (r:
    Result<Vec<Json>, EvalError>)
    ensures
        match partitioned(response@, path_texts(group_by@), path_texts(keys@), is_list) {
            Ok(shares) => r matches Ok(v) && values(v@) == shares,
            Err(e) => r == Err::<Vec<Json>, EvalError>(e),
        },
{
    match response {
        Json::Array(items) => {
            assert(response@->Array_0 =~= values(items@));
            let mut out: Vec<Json> = Vec::new();
            let mut i: usize = 0;
            while i < keys.len()
                invariant
                    i <= keys.len(),
                    out.len() == i,
                    forall|j: int|
                        0 <= j < i ==> (#[trigger] out[j])@ == share(
                            values(items@),
                            path_texts(group_by@),
                            keys[j]@,
                            is_list,
                        ),
                decreases keys.len() - i,
            {
                out.push(share_of(items, group_by, keys[i].as_str(), is_list));
                i += 1;
            }
            assert(values(out@) =~= partitioned(
                response@,
                path_texts(group_by@),
                path_texts(keys@),
                is_list,
            )->Ok_0);
            Ok(out)
        },
        _ => Err(EvalError::BatchPartition),
    }
}

/// Every request of a batch receives its share of the response: null
/// exactly where no element of the response belongs to its key; else, for
/// a list field, elements that all belong to its key, and for any other
/// field one element that belongs to its key.
pub proof fn lemma_partition_covers(
    items: Seq<JsonValue>,
    path: Seq<Seq<char>>,
    keys: Seq<Seq<char>>,
    is_list: bool,
    i: int,
)
    requires
        0 <= i < keys.len(),
    ensures
        partitioned(JsonValue::Array(items), path, keys, is_list) matches Ok(shares)
            && shares.len() == keys.len() && shares[i] == share(items, path, keys[i], is_list),
        (forall|k: int| 0 <= k < items.len() ==> !element_matches(#[trigger] items[k], path, keys[i]))
            ==> share(items, path, keys[i], is_list) == JsonValue::Null,
        (exists|k: int| 0 <= k < items.len() && element_matches(#[trigger] items[k], path, keys[i]))
            ==> if is_list {
            share(items, path, keys[i], is_list) matches JsonValue::Array(found) && found.len() > 0
                && forall|k: int|
                0 <= k < found.len() ==> element_matches(#[trigger] found[k], path, keys[i])
        } else {
            element_matches(share(items, path, keys[i], is_list), path, keys[i])
        },
{
    lemma_matching(items, path, keys[i]);
    lemma_matching_finds(items, path, keys[i]);
}

/// Where an element belongs to a key, the elements that belong to it are
/// not none; where none does, they are none.
proof fn lemma_matching_finds(items: Seq<JsonValue>, path: Seq<Seq<char>>, key: Seq<char>)
    ensures
        (exists|k: int| 0 <= k < items.len() && element_matches(#[trigger] items[k], path, key))
            ==> matching(items, path, key).len() > 0,
        (forall|k: int| 0 <= k < items.len() ==> !element_matches(#[trigger] items[k], path, key))
            ==> matching(items, path, key).len() == 0,
    decreases items.len(),
{
    if items.len() > 0 {
        lemma_matching_finds(items.drop_last(), path, key);
        assert forall|k: int| 0 <= k < items.len() - 1 implies items.drop_last()[k]
            == items[k] by {}
        if exists|k: int| 0 <= k < items.len() && element_matches(#[trigger] items[k], path, key) {
            let k = choose|k: int|
                0 <= k < items.len() && element_matches(#[trigger] items[k], path, key);
            if k < items.len() - 1 {
                assert(element_matches(items.drop_last()[k], path, key));
            }
        }
        if forall|k: int| 0 <= k < items.len() ==> !element_matches(#[trigger] items[k], path, key) {
            assert(!element_matches(items.last(), path, key)) by {
                assert(items[items.len() - 1] == items.last());
            }
            assert forall|k: int| 0 <= k < items.drop_last().len() implies !element_matches(
                #[trigger] items.drop_last()[k],
                path,
                key,
            ) by {
                assert(items.drop_last()[k] == items[k]);
            }
        }
    }
}

proof fn lemma_matching(items: Seq<JsonValue>, path: Seq<Seq<char>>, key: Seq<char>)
    ensures
        forall|k: int|
            0 <= k < matching(items, path, key).len() ==> element_matches(
                #[trigger] matching(items, path, key)[k],
                path,
                key,
            ),
        matching(items, path, key).len() == 0 ==> forall|k: int|
            0 <= k < items.len() ==> !element_matches(#[trigger] items[k], path, key),
    decreases items.len(),
{
    if items.len() > 0 {
        lemma_matching(items.drop_last(), path, key);
        assert forall|k: int| 0 <= k < items.len() - 1 implies items.drop_last()[k]
            == items[k] by {}
        if matching(items, path, key).len() == 0 {
            assert forall|k: int| 0 <= k < items.len() implies !element_matches(
                #[trigger] items[k],
                path,
                key,
            ) by {
                if k < items.len() - 1 {
                    assert(items.drop_last()[k] == items[k]);
                }
            }
        }
    }
}

/// The query parameters that carry the first `upto` keys of a batch:
/// `name=key` for each key, with `&` between them.
pub open spec fn batch_pairs(name: Seq<char>, keys: Seq<Seq<char>>, upto: int) -> Seq<char>
    decreases upto,
{
    if upto <= 0 {
        Seq::empty()
    } else {
        batch_pairs(name, keys, upto - 1) + (if upto == 1 {
            Seq::empty()
        } else {
            "&"@
        }) + name + "="@ + keys[upto - 1]
    }
}

/// The URL of the one call that is made for a batch of keys: `url` with a
/// query parameter `name` for each key, in their order, after `?`, or
/// after `&` where `url` has a query already. For no keys it is `url`.
pub open spec fn batched_url(url: Seq<char>, name: Seq<char>, keys: Seq<Seq<char>>) -> Seq<char> {
    if keys.len() == 0 {
        url
    } else {
        url + (if contains_text(url, "?"@) {
            "&"@
        } else {
            "?"@
        }) + batch_pairs(name, keys, keys.len() as int)
    }
}

/// The URL of the one call that is made for a batch of keys. Names and
/// keys are taken as they are.
pub fn batch_url(url: &str, name: &str, keys: &Vec<String>) -> (r: String)
    ensures
        r@ == batched_url(url@, name@, path_texts(keys@)),
{
    let mut out = chars_of(url);
    if keys.len() == 0 {
        return string_of(&out);
    }
    let mark = chars_of("?");
    let amp = chars_of("&");
    let eq = chars_of("=");
    let label = chars_of(name);
    let ghost all = path_texts(keys@);
    let ghost sep = if contains_text(url@, "?"@) {
        "&"@
    } else {
        "?"@
    };
    if contains(&out, &mark) {
        append_chars(&mut out, &amp);
    } else {
        append_chars(&mut out, &mark);
    }
    assert(out@ =~= url@ + sep + batch_pairs(name@, all, 0));
    let mut i: usize = 0;
    while i < keys.len()
        invariant
            i <= keys.len(),
            all == path_texts(keys@),
            amp@ == "&"@,
            eq@ == "="@,
            label@ == name@,
            out@ == url@ + sep + batch_pairs(name@, all, i as int),
        decreases keys.len() - i,
    {
        let ghost before = out@;
        if i > 0 {
            append_chars(&mut out, &amp);
        }
        append_chars(&mut out, &label);
        append_chars(&mut out, &eq);
        let key = chars_of(keys[i].as_str());
        append_chars(&mut out, &key);
        assert(key@ == all[i as int]);
        assert(out@ =~= url@ + sep + batch_pairs(name@, all, i + 1));
        i += 1;
    }
    string_of(&out)
}

/// The keys of a batch after the first.
pub open spec fn later_keys(keys: Seq<Seq<char>>) -> Seq<Seq<char>> {
    if keys.len() > 0 {
        keys.skip(1)
    } else {
        keys
    }
}

/// Whether calls of `io` can be sent as one batch: it is an HTTP call that
/// says how the response is split.
pub open spec fn is_batched(io: IO) -> bool {
    io matches IO::Http { group_by: Some(_), .. }
}

/// The one request that is sent for a batch of calls of `io`: the request
/// of the first call, which carries the first key, with the keys after the
/// first added to its URL as query parameters named `name`. A call that
/// cannot be batched, or a first request that is no HTTP request, gives
/// `BatchPartition`.
pub fn batch_request(io: &IO, name: &str, first: Request, keys: &Vec<String>) -> (r: Result<
    Request,
    EvalError,
>)
    ensures
        match first {
            Request::Http { method, url, headers, body } if is_batched(*io) => r matches Ok(
                Request::Http { method: m, url: u, headers: h, body: b },
            ) && m == method && u@ == batched_url(url@, name@, later_keys(path_texts(keys@))) && h
                == headers && b == body,
            _ => r == Err::<Request, EvalError>(EvalError::BatchPartition),
        },
{
    match io {
        IO::Http { group_by: Some(_), .. } => {},
        _ => {
            return Err(EvalError::BatchPartition);
        },
    }
    match first {
        Request::Http { method, url, headers, body } => {
            let mut others: Vec<String> = Vec::new();
            let mut i: usize = 1;
            while i < keys.len()
                invariant
                    1 <= i,
                    i <= keys.len() || keys.len() == 0,
                    keys.len() > 0 ==> path_texts(others@) == path_texts(keys@).subrange(
                        1,
                        i as int,
                    ),
                    keys.len() == 0 ==> others@.len() == 0,
                decreases keys.len() - i,
            {
                let ghost before = path_texts(others@);
                others.push(keys[i].clone());
                assert(path_texts(others@) =~= before.push(keys@[i as int]@));
                assert(path_texts(keys@).subrange(1, i + 1) =~= path_texts(keys@).subrange(
                    1,
                    i as int,
                ).push(keys@[i as int]@));
                i += 1;
            }
            assert(path_texts(others@) =~= later_keys(path_texts(keys@)));
            let joined = batch_url(url.as_str(), name, &others);
            Ok(Request::Http { method, url: joined, headers, body })
        },
        _ => Err(EvalError::BatchPartition),
    }
}

/// What each call of a batch of calls of `io` receives of the response:
/// the response split by the path of the call's grouping, one share for
/// each key, a list where the call expects one. A call that cannot be
/// batched gives `BatchPartition`.
pub open spec fn batch_shared(io: IO, response: JsonValue, keys: Seq<Seq<char>>) -> Result<
    Seq<JsonValue>,
    EvalError,
> {
    match io {
        IO::Http { group_by: Some(group_by), is_list, .. } => partitioned(
            response,
            path_texts(group_by.path@),
            keys,
            is_list,
        ),
        _ => Err(EvalError::BatchPartition),
    }
}

/// Splits the response to a batch of calls of `io` among its keys.
pub fn batch_shares(io: &IO, response: &Json, keys: &Vec<String>) -> (r: Result<
    Vec<Json>,
    EvalError,
>)
    ensures
        match batch_shared(*io, response@, path_texts(keys@)) {
            Ok(shares) => r matches Ok(v) && values(v@) == shares,
            Err(e) => r == Err::<Vec<Json>, EvalError>(e),
        },
{
    match io {
        IO::Http { group_by: Some(group_by), is_list, .. } => partition(
            response,
            &group_by.path,
            keys,
            *is_list,
        ),
        _ => Err(EvalError::BatchPartition),
    }
}

} // verus!
