//! How an embedding server is addressed and what each model family expects in front of its
//! input. The HTTP exchange itself is the caller's.

use vstd::prelude::*;

use crate::rag::error::RagError;
use crate::rag::native::config::{ProviderConfig, url_root};
use crate::text::{
    contains_lower, decimal, decimal_text, ends_with_lower, equals_lower, has_infix, has_suffix, lower, trim,
    trimmed,
};

verus! {

/// Bumped whenever the text sent for embedding changes shape.
pub const EMBED_INPUT_VERSION: u32 = 1;

/// Texts per embedding request.
pub const MAX_BATCH: usize = 64;

pub const QWEN_QUERY: &'static str = "Instruct: Given a search query, retrieve relevant passages that answer it\nQuery: ";

pub const BGE_QUERY: &'static str = "Represent this sentence for searching relevant passages: ";

/// The query and document prefixes a model family was trained with; `name` is the model name
/// trimmed and lower-cased.
pub open spec fn prefix_pair(name: Seq<char>) -> (Seq<char>, Seq<char>) {
    if has_infix(name, "nomic-embed"@) {
        ("search_query: "@, "search_document: "@)
    } else if name == "e5"@ || has_infix(name, "multilingual-e5"@) || has_infix(name, "-e5-"@) || has_suffix(name, "-e5"@) {
        ("query: "@, "passage: "@)
    } else if has_infix(name, "qwen3-embedding"@) || has_infix(name, "qwen3_embedding"@) {
        (QWEN_QUERY@, ""@)
    } else if has_infix(name, "bge-"@) && !has_infix(name, "bge-m3"@) && (has_infix(name, "large"@)
        || has_infix(name, "base"@) || has_infix(name, "small"@)) {
        (BGE_QUERY@, ""@)
    } else if has_infix(name, "embeddinggemma"@) || has_infix(name, "embedding-gemma"@) {
        ("task: search result | query: "@, "title: none | text: "@)
    } else {
        (""@, ""@)
    }
}

/// The prefixes for a model, by name; case and surrounding spaces do not matter.
pub fn prefixes_for(model: &str) -> (r: (&'static str, &'static str))
    ensures
        (r.0@, r.1@) == prefix_pair(lower(trimmed(model@))),
{
    let name = trim(model);
    if contains_lower(name, "nomic-embed") {
        return ("search_query: ", "search_document: ");
    }
    if equals_lower(name, "e5") || contains_lower(name, "multilingual-e5") || contains_lower(name, "-e5-")
        || ends_with_lower(name, "-e5") {
        return ("query: ", "passage: ");
    }
    if contains_lower(name, "qwen3-embedding") || contains_lower(name, "qwen3_embedding") {
        return (QWEN_QUERY, "");
    }
    if contains_lower(name, "bge-") && !contains_lower(name, "bge-m3") && (contains_lower(name, "large")
        || contains_lower(name, "base") || contains_lower(name, "small")) {
        return (BGE_QUERY, "");
    }
    if contains_lower(name, "embeddinggemma") || contains_lower(name, "embedding-gemma") {
        return ("task: search result | query: ", "title: none | text: ");
    }
    ("", "")
}

pub const NO_EMBEDDING_MODEL: &'static str = "chưa chọn mô hình nhúng. Chọn một mô hình trong Cài đặt.";

/// A client needs a model name; a blank one means semantic search is off.
pub fn check_model(provider: &ProviderConfig) -> (r: Result<(), RagError>)
    ensures
        trimmed(provider.model@).len() == 0 ==> (r matches Err(RagError::Unavailable(e)) && e@ == NO_EMBEDDING_MODEL@),
        trimmed(provider.model@).len() > 0 ==> r is Ok,
{
    if trim(provider.model.as_str()).unicode_len() == 0 {
        return Err(RagError::Unavailable(String::from_str(NO_EMBEDDING_MODEL)));
    }
    Ok(())
}

/// Ollama's own endpoint reads `embeddings`; every other kind speaks the OpenAI protocol.
pub open spec fn endpoint_of(kind: Seq<char>, root: Seq<char>) -> (Seq<char>, Seq<char>) {
    if kind == "ollama"@ {
        (root + "/api/embed"@, "embeddings"@)
    } else {
        (root + "/v1/embeddings"@, "data"@)
    }
}

/// The URL to post to and the response field holding the vectors.
pub fn embed_endpoint(provider: &ProviderConfig) -> (r: (String, &'static str))
    ensures
        (r.0@, r.1@) == endpoint_of(provider.kind@, url_root(provider.base_url@)),
{
    let root = provider.root();
    if crate::text::str_eq(provider.kind.as_str(), "ollama") {
        (root.concat("/api/embed"), "embeddings")
    } else {
        (root.concat("/v1/embeddings"), "data")
    }
}

/// The text in front of the first newline, or all of it.
pub open spec fn before_newline(s: Seq<char>) -> Seq<char>
    decreases s.len(),
{
    if s.len() == 0 {
        s
    } else if s[0] == '\n' {
        Seq::empty()
    } else {
        seq![s[0]] + before_newline(s.drop_first())
    }
}

/// The first line of a server's reply, trimmed and cut to 200 characters, for an error message.
pub open spec fn first_line_of(body: Seq<char>) -> Seq<char> {
    let line = trimmed(before_newline(body));
    if line.len() <= 200 {
        line
    } else {
        line.take(200)
    }
}

proof fn lemma_before_newline(s: Seq<char>, j: int)
    requires
        0 <= j <= s.len(),
        forall|k: int| 0 <= k < j ==> #[trigger] s[k] != '\n',
        j == s.len() || s[j] == '\n',
    ensures
        before_newline(s) == s.take(j),
    decreases j,
{
    if j == 0 {
        assert(s.take(0) =~= Seq::<char>::empty());
    } else {
        assert forall|k: int| 0 <= k < j - 1 implies #[trigger] s.drop_first()[k] != '\n' by {
            assert(s.drop_first()[k] == s[k + 1]);
        }
        if j < s.len() {
            assert(s.drop_first()[j - 1] == s[j]);
        }
        lemma_before_newline(s.drop_first(), j - 1);
        assert(seq![s[0]] + s.drop_first().take(j - 1) =~= s.take(j));
    }
}

pub fn first_line(body: &str) -> (r: String)
    ensures
        r@ == first_line_of(body@),
{
    let n = body.unicode_len();
    let mut j: usize = 0;
    while j < n && body.get_char(j) != '\n'
        invariant
            n == body@.len(),
            j <= n,
            forall|k: int| 0 <= k < j ==> #[trigger] body@[k] != '\n',
        decreases n - j,
    {
        j = j + 1;
    }
    proof {
        lemma_before_newline(body@, j as int);
        assert(body@.take(j as int) =~= body@.subrange(0, j as int));
    }
    let line = trim(body.substring_char(0, j));
    let m = line.unicode_len();
    if m <= 200 {
        String::from_str(line)
    } else {
        proof {
            assert(line@.subrange(0, 200) =~= line@.take(200));
        }
        String::from_str(line.substring_char(0, 200))
    }
}

/// `prefix` in front of every text.
pub open spec fn prefixed_all(prefix: Seq<char>, texts: Seq<String>) -> Seq<Seq<char>> {
    texts.map_values(|t: String| prefix + t@)
}

/// The inputs sent for a list of texts: each with the prefix in front.
pub fn prefixed(prefix: &str, texts: &Vec<String>) -> (r: Vec<String>)
    ensures
        crate::sandbox::policy::views(r@) == prefixed_all(prefix@, texts@),
{
    let mut r: Vec<String> = Vec::new();
    let mut i: usize = 0;
    while i < texts.len()
        invariant
            i <= texts@.len(),
            crate::sandbox::policy::views(r@) == prefixed_all(prefix@, texts@.take(i as int)),
        decreases texts.len() - i,
    {
        let item = String::from_str(prefix).concat(texts[i].as_str());
        let ghost before = r@;
        r.push(item);
        proof {
            crate::sandbox::policy::lemma_views_push(before, item);
            assert(prefixed_all(prefix@, texts@.take(i + 1)) =~= prefixed_all(prefix@, texts@.take(i as int)).push(prefix@ + texts@[i as int]@));
        }
        i = i + 1;
    }
    proof {
        assert(texts@.take(texts.len() as int) =~= texts@);
    }
    r
}

/// The place a returned row takes: its `index` when the server sent one, else where it stood.
pub open spec fn row_key(index: Option<u64>, position: int) -> int {
    match index {
        Some(i) => (i as usize) as int,
        None => position,
    }
}

/// Insert `x` after every element whose key is not above its own: one step of a stable sort.
pub open spec fn insert_by_key<T>(sorted: Seq<(int, T)>, x: (int, T)) -> Seq<(int, T)>
    decreases sorted.len(),
{
    if sorted.len() == 0 {
        seq![x]
    } else if x.0 < sorted.last().0 {
        insert_by_key(sorted.drop_last(), x).push(sorted.last())
    } else {
        sorted.push(x)
    }
}

/// The stable sort by key.
pub open spec fn sorted_by_key<T>(s: Seq<(int, T)>) -> Seq<(int, T)>
    decreases s.len(),
{
    if s.len() == 0 {
        Seq::empty()
    } else {
        insert_by_key(sorted_by_key(s.drop_last()), s.last())
    }
}

/// The rows with their keys, in the order they arrived.
pub open spec fn keyed<T>(rows: Seq<(Option<u64>, T)>) -> Seq<(int, T)> {
    Seq::new(rows.len(), |p: int| (row_key(rows[p].0, p), rows[p].1))
}

/// The rows in the order the server meant.
pub open spec fn restored<T>(rows: Seq<(Option<u64>, T)>) -> Seq<T> {
    sorted_by_key(keyed(rows)).map_values(|e: (int, T)| e.1)
}

/// Keys and items side by side.
pub open spec fn zipped<T>(keys: Seq<usize>, items: Seq<T>) -> Seq<(int, T)> {
    Seq::new(items.len(), |k: int| (keys[k] as int, items[k]))
}

proof fn lemma_insert_by_key<T>(s: Seq<(int, T)>, x: (int, T), p: int)
    requires
        0 <= p <= s.len(),
        forall|k: int| p <= k < s.len() ==> x.0 < #[trigger] s[k].0,
        p == 0 || !(x.0 < s[p - 1].0),
    ensures
        insert_by_key(s, x) == s.insert(p, x),
    decreases s.len() - p,
{
    if s.len() == 0 {
        assert(s.insert(p, x) =~= seq![x]);
    } else if p == s.len() {
        assert(s.insert(p, x) =~= s.push(x));
    } else {
        let init = s.drop_last();
        assert(x.0 < s.last().0);
        assert forall|k: int| p <= k < init.len() implies x.0 < #[trigger] init[k].0 by {
            assert(init[k] == s[k]);
        }
        if p > 0 {
            assert(init[p - 1] == s[p - 1]);
        }
        lemma_insert_by_key(init, x, p);
        assert(init.insert(p, x).push(s.last()) =~= s.insert(p, x));
    }
}

/// Rows an OpenAI-style server returned, put back in the order it meant: by each row's
/// `index`, or its position when it has none; rows with equal keys keep their order.
pub fn restore_order<T>(rows: Vec<(Option<u64>, T)>) -> (r: Vec<T>)
    ensures
        r@ == restored(rows@),
{
    let ghost input = rows@;
    let n = rows.len();
    let mut source = rows;
    let mut reversed: Vec<(Option<u64>, T)> = Vec::new();
    while source.len() > 0
        invariant
            source@ + reversed@.reverse() == input,
        decreases source.len(),
    {
        let ghost before_s = source@;
        let ghost before_r = reversed@;
        let e = source.pop().unwrap();
        reversed.push(e);
        proof {
            assert(reversed@.reverse() =~= seq![e] + before_r.reverse());
            assert(before_s =~= source@.push(e));
            assert(source@ + reversed@.reverse() =~= before_s + before_r.reverse());
        }
    }
    assert(reversed@.reverse() =~= input);
    let mut keys: Vec<usize> = Vec::new();
    let mut items: Vec<T> = Vec::new();
    let mut i: usize = 0;
    proof {
        assert(keyed(input).take(0) =~= Seq::<(int, T)>::empty());
        assert(zipped(keys@, items@) =~= Seq::<(int, T)>::empty());
    }
    while i < n
        invariant
            n == input.len(),
            i <= n,
            reversed@.len() == n - i,
            forall|j: int| 0 <= j < n - i ==> #[trigger] reversed@[j] == input[n - 1 - j],
            keys@.len() == items@.len(),
            zipped(keys@, items@) == sorted_by_key(keyed(input).take(i as int)),
        decreases n - i,
    {
        let (index, item) = reversed.pop().unwrap();
        proof {
            assert((index, item) == input[i as int]);
        }
        let key: usize = match index {
            Some(k) => #[verifier::truncate] (k as usize),
            None => i,
        };
        let ghost x: (int, T) = (key as int, item);
        let ghost before = zipped(keys@, items@);
        proof {
            assert(x == keyed(input)[i as int]);
            assert(keyed(input).take(i + 1).drop_last() =~= keyed(input).take(i as int));
            assert(keyed(input).take(i + 1).last() == x);
        }
        let mut p: usize = keys.len();
        while p > 0 && key < keys[p - 1]
            invariant
                p <= keys@.len(),
                forall|k: int| p <= k < keys@.len() ==> key < #[trigger] keys@[k],
            decreases p,
        {
            p = p - 1;
        }
        proof {
            assert forall|k: int| p <= k < before.len() implies x.0 < #[trigger] before[k].0 by {
                assert(before[k].0 == keys@[k]);
            }
            if p > 0 {
                assert(before[p - 1].0 == keys@[p - 1]);
            }
            lemma_insert_by_key(before, x, p as int);
        }
        keys.insert(p, key);
        items.insert(p, item);
        proof {
            assert(zipped(keys@, items@) =~= before.insert(p as int, x));
        }
        i = i + 1;
    }
    proof {
        assert(keyed(input).take(n as int) =~= keyed(input));
        assert(items@ =~= sorted_by_key(keyed(input)).map_values(|e: (int, T)| e.1)) by {
            assert forall|k: int| 0 <= k < items@.len() implies items@[k] == sorted_by_key(keyed(input)).map_values(|e: (int, T)| e.1)[k] by {
                assert(zipped(keys@, items@)[k].1 == items@[k]);
            }
        }
    }
    items
}

/// Keys never go down.
pub open spec fn keys_ascending<T>(s: Seq<(int, T)>) -> bool {
    forall|a: int, b: int| 0 <= a < b < s.len() ==> #[trigger] s[a].0 <= #[trigger] s[b].0
}

proof fn lemma_insert_by_key_facts<T>(s: Seq<(int, T)>, x: (int, T), m: int)
    ensures
        insert_by_key(s, x).len() == s.len() + 1,
        insert_by_key(s, x).to_multiset() == s.to_multiset().insert(x),
        (forall|k: int| 0 <= k < s.len() ==> #[trigger] s[k].0 <= m) && x.0 <= m ==> forall|k: int|
            0 <= k < insert_by_key(s, x).len() ==> #[trigger] insert_by_key(s, x)[k].0 <= m,
        keys_ascending(s) ==> keys_ascending(insert_by_key(s, x)),
    decreases s.len(),
{
    broadcast use vstd::seq_lib::to_multiset_build;
    broadcast use vstd::multiset::group_multiset_axioms;
    if s.len() == 0 {
        assert(seq![x] =~= s.push(x));
    } else if x.0 < s.last().0 {
        let init = s.drop_last();
        let last = s.last();
        assert(init.push(last) =~= s);
        lemma_insert_by_key_facts(init, x, m);
        lemma_insert_by_key_facts(init, x, last.0);
        let t = insert_by_key(init, x);
        assert(t.push(last).to_multiset() =~= s.to_multiset().insert(x));
        if keys_ascending(s) {
            assert forall|k: int| 0 <= k < init.len() implies #[trigger] init[k].0 <= last.0 by {
                assert(init[k] == s[k]);
            }
            assert(keys_ascending(init)) by {
                assert forall|a: int, b: int| 0 <= a < b < init.len() implies #[trigger] init[a].0 <= #[trigger] init[b].0 by {
                    assert(init[a] == s[a] && init[b] == s[b]);
                }
            }
            assert forall|a: int, b: int| 0 <= a < b < t.push(last).len() implies #[trigger] t.push(last)[a].0
                <= #[trigger] t.push(last)[b].0 by {
                if b < t.len() {
                    assert(t.push(last)[a] == t[a] && t.push(last)[b] == t[b]);
                } else {
                    assert(t.push(last)[a] == t[a]);
                }
            }
        }
        if (forall|k: int| 0 <= k < s.len() ==> #[trigger] s[k].0 <= m) && x.0 <= m {
            assert forall|k: int| 0 <= k < init.len() implies #[trigger] init[k].0 <= m by {
                assert(init[k] == s[k]);
            }
            assert(last.0 <= m);
        }
    } else {
        if keys_ascending(s) {
            assert forall|a: int, b: int| 0 <= a < b < s.push(x).len() implies #[trigger] s.push(x)[a].0
                <= #[trigger] s.push(x)[b].0 by {
                if b < s.len() {
                    assert(s.push(x)[a] == s[a] && s.push(x)[b] == s[b]);
                } else {
                    assert(s[a].0 <= s.last().0);
                }
            }
        }
    }
}

proof fn lemma_sorted_by_key_facts<T>(s: Seq<(int, T)>)
    ensures
        sorted_by_key(s).len() == s.len(),
        sorted_by_key(s).to_multiset() == s.to_multiset(),
        keys_ascending(sorted_by_key(s)),
    decreases s.len(),
{
    broadcast use vstd::seq_lib::to_multiset_build;
    if s.len() == 0 {
        assert(sorted_by_key(s) =~= s);
    } else {
        lemma_sorted_by_key_facts(s.drop_last());
        lemma_insert_by_key_facts(sorted_by_key(s.drop_last()), s.last(), 0);
        assert(s.drop_last().push(s.last()) =~= s);
    }
}

/// The rows handed back are exactly the rows the server sent, as many and each as often, and
/// they come in the order of their keys (each row's `index`, or its position without one).
pub proof fn law_rows_restored_in_key_order<T>(rows: Seq<(Option<u64>, T)>)
    ensures
        restored(rows).len() == rows.len(),
        sorted_by_key(keyed(rows)).to_multiset() == keyed(rows).to_multiset(),
        keys_ascending(sorted_by_key(keyed(rows))),
        forall|k: int| 0 <= k < restored(rows).len() ==> #[trigger] restored(rows)[k] == sorted_by_key(keyed(rows))[k].1,
{
    lemma_sorted_by_key_facts(keyed(rows));
}

/// What a batch of returned vectors must be: as many as were asked for, none empty.
pub open spec fn rows_refusal(model: Seq<char>, expected: usize, lengths: Seq<usize>) -> Option<Seq<char>> {
    if lengths.len() != expected {
        Some("model `"@ + model + "`: xin "@ + decimal_text(expected as nat) + " vector nhưng nhận "@
            + decimal_text(lengths.len()))
    } else if exists|k: int| 0 <= k < lengths.len() && lengths[k] == 0 {
        Some("model `"@ + model + "` trả về vector rỗng"@)
    } else {
        None
    }
}

/// Check the vectors a server returned by their lengths: the count asked for, and none empty.
pub fn check_rows(model: &str, expected: usize, lengths: &Vec<usize>) -> (r: Result<(), RagError>)
    ensures
        match rows_refusal(model@, expected, lengths@) {
            Some(m) => r matches Err(RagError::Service(e)) && e@ == m,
            None => r is Ok,
        },
{
    if lengths.len() != expected {
        return Err(RagError::Service(String::from_str("model `").concat(model).concat("`: xin ").concat(
            decimal(expected as u64).as_str(),
        ).concat(" vector nhưng nhận ").concat(decimal(lengths.len() as u64).as_str())));
    }
    let mut k: usize = 0;
    while k < lengths.len()
        invariant
            k <= lengths@.len(),
            lengths@.len() == expected,
            forall|j: int| 0 <= j < k ==> #[trigger] lengths@[j] != 0,
        decreases lengths.len() - k,
    {
        if lengths[k] == 0 {
            assert(0 <= k < lengths@.len() && lengths@[k as int] == 0);
            return Err(RagError::Service(String::from_str("model `").concat(model).concat("` trả về vector rỗng")));
        }
        k = k + 1;
    }
    Ok(())
}

} // verus!
