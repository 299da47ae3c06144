use vstd::prelude::*;
use crate::parser::attributes::{has_distinct_keys, lemma_pairs_to_map_lookup, pairs_to_map};
use crate::parser::grammar::{
    attribute_list_rule, attribute_pair_rule, attribute_value_rule, quoted_value_rule, value_rule,
};
use crate::parser::scan::{lemma_first_of_is, skip_spaces};

verus! {

/// One attribute as a playlist writes it: its key, its value, and whether
/// the value stands between quotes.
pub struct WrittenPair {
    pub key: Seq<char>,
    pub value: Seq<char>,
    pub quoted: bool,
}

impl WrittenPair {
    /// Whether the pair can be written so that it reads back: the key holds
    /// no `=` and the value is not empty; a quoted value holds no `"`, an
    /// unquoted one holds no `,` and no line feed and does not start with
    /// `"`.
    pub open spec fn is_writable(self) -> bool {
        &&& forall|k: int| 0 <= k < self.key.len() ==> self.key[k] != '='
        &&& self.value.len() > 0
        &&& if self.quoted {
            forall|k: int| 0 <= k < self.value.len() ==> self.value[k] != '"'
        } else {
            &&& self.value[0] != '"'
            &&& forall|k: int|
                0 <= k < self.value.len() ==> self.value[k] != ',' && self.value[k] != '\n'
        }
    }

    /// The value as written: between quotes where it is quoted.
    pub open spec fn written_value(self) -> Seq<char> {
        if self.quoted {
            seq!['"'] + self.value + seq!['"']
        } else {
            self.value
        }
    }

    /// The pair as written: `KEY=VALUE`.
    pub open spec fn written(self) -> Seq<char> {
        self.key + seq!['='] + self.written_value()
    }
}

/// The pairs as written: one after the other, with a `,` between two.
pub open spec fn written_list(pairs: Seq<WrittenPair>) -> Seq<char>
    decreases pairs.len(),
{
    if pairs.len() == 0 {
        Seq::empty()
    } else if pairs.len() == 1 {
        pairs[0].written()
    } else {
        pairs[0].written() + seq![','] + written_list(pairs.drop_first())
    }
}

/// Key and value of each pair, in the same order.
pub open spec fn entries_of(pairs: Seq<WrittenPair>) -> Seq<(Seq<char>, Seq<char>)> {
    pairs.map_values(|pair: WrittenPair| (pair.key, pair.value))
}

/// A writable pair that stands at `i`, followed by a `,` or by the end of
/// the input, reads back as its key and its value, and reading stops right
/// after it.
pub proof fn lemma_written_pair_reads_back(s: Seq<char>, i: int, pair: WrittenPair)
    requires
        pair.is_writable(),
        0 <= i,
        i + pair.written().len() <= s.len(),
        s.subrange(i, i + pair.written().len()) == pair.written(),
        i + pair.written().len() < s.len() ==> s[i + pair.written().len()] == ',',
    ensures
        attribute_pair_rule(s, i) matches Ok((entry, next)) && entry == (pair.key, pair.value)
            && next == i + pair.written().len(),
{
    let w = pair.written();
    let end = i + w.len();
    assert forall|k: int| 0 <= k < w.len() implies s[i + k] == w[k] by {
        assert(s.subrange(i, end)[k] == s[i + k]);
    }
    let eq = i + pair.key.len();
    assert(s[eq] == '=') by {
        assert(w[pair.key.len() as int] == '=');
    }
    assert forall|k: int| i <= k < eq implies s[k] != '=' by {
        assert(w[k - i] == pair.key[k - i]);
    }
    lemma_first_of_is(s, i, '=', '=', eq);
    assert(s.subrange(i, eq) =~= pair.key) by {
        assert forall|k: int| 0 <= k < pair.key.len() implies s[i + k] == pair.key[k] by {
            assert(w[k] == pair.key[k]);
        }
    }
    let start = eq + 1;
    if pair.quoted {
        assert(s[start] == '"') by {
            assert(w[start - i] == '"');
        }
        let close = start + 1 + pair.value.len();
        assert(close + 1 == end);
        assert(s[close] == '"') by {
            assert(w[close - i] == '"');
        }
        assert forall|k: int| start + 1 <= k < close implies s[k] != '"' by {
            assert(w[k - i] == pair.value[k - start - 1]);
        }
        lemma_first_of_is(s, start + 1, '"', '"', close);
        assert(s.subrange(start + 1, close) =~= pair.value) by {
            assert forall|k: int| 0 <= k < pair.value.len() implies s[start + 1 + k]
                == pair.value[k] by {
                assert(w[start + 1 + k - i] == pair.value[k]);
            }
        }
        assert(skip_spaces(s, end) == end);
        assert(quoted_value_rule(s, start) matches Ok((text, next)) && text == pair.value && next
            == end);
    } else {
        assert(s[start] == pair.value[0]) by {
            assert(w[start - i] == pair.value[0]);
        }
        assert(quoted_value_rule(s, start) is Err);
        assert(start + pair.value.len() == end);
        assert forall|k: int| start <= k < end implies s[k] != ',' && s[k] != '\n' by {
            assert(w[k - i] == pair.value[k - start]);
        }
        lemma_first_of_is(s, start, ',', '\n', end);
        assert(s.subrange(start, end) =~= pair.value) by {
            assert forall|k: int| 0 <= k < pair.value.len() implies s[start + k]
                == pair.value[k] by {
                assert(w[start + k - i] == pair.value[k]);
            }
        }
        assert(skip_spaces(s, end) == end);
        assert(value_rule(s, start) matches Ok((text, next)) && text == pair.value && next == end);
    }
    assert(attribute_value_rule(s, start) matches Ok((text, next)) && text == pair.value && next
        == end);
}

/// Writable pairs whose written list ends the input at `i` read back as
/// they are, in their order.
pub proof fn lemma_written_list_reads_back_at(s: Seq<char>, i: int, pairs: Seq<WrittenPair>)
    requires
        pairs.len() > 0,
        forall|k: int| 0 <= k < pairs.len() ==> (#[trigger] pairs[k]).is_writable(),
        0 <= i <= s.len(),
        s.subrange(i, s.len() as int) == written_list(pairs),
    ensures
        attribute_list_rule(s, i) matches Ok((read, end)) && read == entries_of(pairs) && end
            == s.len(),
    decreases pairs.len(),
{
    let pair = pairs[0];
    let w = pair.written();
    let rest = s.subrange(i, s.len() as int);
    let entry = (pair.key, pair.value);
    if pairs.len() == 1 {
        assert(rest == w);
        assert(s.subrange(i, i + w.len()) =~= w);
        lemma_written_pair_reads_back(s, i, pair);
        assert(entries_of(pairs) =~= seq![entry]);
    } else {
        let tail = pairs.drop_first();
        let after = i + w.len();
        assert(rest == w + seq![','] + written_list(tail));
        assert(s.subrange(i, after) =~= w) by {
            assert forall|k: int| 0 <= k < w.len() implies s[i + k] == w[k] by {
                assert(rest[k] == s[i + k]);
            }
        }
        assert(s[after] == ',') by {
            assert(rest[w.len() as int] == s[after]);
        }
        lemma_written_pair_reads_back(s, i, pair);
        assert(s.subrange(after + 1, s.len() as int) =~= written_list(tail)) by {
            assert forall|k: int| 0 <= k < written_list(tail).len() implies s[after + 1 + k]
                == written_list(tail)[k] by {
                assert(rest[w.len() + 1 + k] == s[after + 1 + k]);
            }
        }
        assert forall|k: int| 0 <= k < tail.len() implies (#[trigger] tail[k]).is_writable() by {
            assert(tail[k] == pairs[k + 1]);
        }
        lemma_written_list_reads_back_at(s, after + 1, tail);
        assert(seq![entry] + entries_of(tail) =~= entries_of(pairs));
    }
}

/// A list of `N` writable pairs reads back as those `N` pairs, keys and
/// values as they were written and quotes taken off, and the whole text is
/// read.
pub proof fn lemma_written_list_reads_back(pairs: Seq<WrittenPair>)
    requires
        pairs.len() > 0,
        forall|k: int| 0 <= k < pairs.len() ==> (#[trigger] pairs[k]).is_writable(),
    ensures
        attribute_list_rule(written_list(pairs), 0) matches Ok((read, end)) && read == entries_of(
            pairs,
        ) && end == written_list(pairs).len(),
{
    let s = written_list(pairs);
    assert(s.subrange(0, s.len() as int) =~= s);
    lemma_written_list_reads_back_at(s, 0, pairs);
}

/// Where the keys of `N` writable pairs differ, the mapping read from their
/// written list has `N` entries: each key with its value.
pub proof fn lemma_written_pairs_are_all_kept(pairs: Seq<WrittenPair>)
    requires
        pairs.len() > 0,
        forall|k: int| 0 <= k < pairs.len() ==> (#[trigger] pairs[k]).is_writable(),
        forall|j: int, k: int| 0 <= j < k < pairs.len() ==> pairs[j].key != pairs[k].key,
    ensures
        match attribute_list_rule(written_list(pairs), 0) {
            Ok((read, _)) => {
                &&& pairs_to_map(read).dom().finite()
                &&& pairs_to_map(read).dom().len() == pairs.len()
                &&& forall|k: int|
                    0 <= k < pairs.len() ==> pairs_to_map(read).contains_key(
                        (#[trigger] pairs[k]).key,
                    ) && pairs_to_map(read)[pairs[k].key] == pairs[k].value
            },
            Err(_) => false,
        },
{
    lemma_written_list_reads_back(pairs);
    let read = entries_of(pairs);
    assert(has_distinct_keys(read));
    lemma_pairs_to_map_lookup(read);
    assert forall|k: int| 0 <= k < pairs.len() implies pairs_to_map(read).contains_key(
        (#[trigger] pairs[k]).key,
    ) && pairs_to_map(read)[pairs[k].key] == pairs[k].value by {
        assert(read[k].0 == pairs[k].key);
    }
}

} // verus!
