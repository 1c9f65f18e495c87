//! The text format: records as blocks of `KEY: value` lines, each block
//! opened by a line that starts with `#` and closed by an empty line.

use vstd::prelude::*;
use crate::errors::{ParseError, ParseFailure};
use crate::fields::{
    build_record, field_view, record_from_fields, record_result_view, records_result_view,
};
use crate::record::{RecordView, TransactionRecord, TransactionStatus, TransactionType};
use crate::numbers::{decimal, lemma_parse_decimal_i64, lemma_parse_decimal_u64, signed_decimal};
use crate::csv_format::{lemma_status_name, lemma_type_name};
use crate::text::{
    same_text, split_key_value, split_key_value_pieces, split_lines, str_chars, text_lines, trim,
    trim_bounds,
};

verus! {

/// The fields of one block of the text format, each key with its latest
/// value.
pub struct FieldMap {
    entries: Vec<(String, String)>,
}

/// Whether `k` is the key of one of the entries.
pub open spec fn has_key(ev: Seq<(Seq<char>, Seq<char>)>, k: Seq<char>) -> bool {
    exists|i: int| 0 <= i < ev.len() && (#[trigger] ev[i]).0 == k
}

/// The map of entries whose keys are distinct.
pub open spec fn entries_map(ev: Seq<(Seq<char>, Seq<char>)>) -> Map<Seq<char>, Seq<char>> {
    Map::new(
        |k: Seq<char>| has_key(ev, k),
        |k: Seq<char>| ev[choose|i: int| 0 <= i < ev.len() && (#[trigger] ev[i]).0 == k].1,
    )
}

/// No key occurs twice.
pub open spec fn distinct_keys(ev: Seq<(Seq<char>, Seq<char>)>) -> bool {
    forall|i: int, j: int|
        0 <= i < ev.len() && 0 <= j < ev.len() && i != j ==> (#[trigger] ev[i]).0 != (
        #[trigger] ev[j]).0
}

proof fn lemma_entries_map_at(ev: Seq<(Seq<char>, Seq<char>)>, i: int)
    requires
        distinct_keys(ev),
        0 <= i < ev.len(),
    ensures
        entries_map(ev).contains_key(ev[i].0),
        entries_map(ev)[ev[i].0] == ev[i].1,
{
    let k = ev[i].0;
    assert(has_key(ev, k));
    let j = choose|j: int| 0 <= j < ev.len() && (#[trigger] ev[j]).0 == k;
    assert(j == i);
}

impl FieldMap {
    /// The keys and values as texts.
    pub closed spec fn entry_views(&self) -> Seq<(Seq<char>, Seq<char>)> {
        self.entries@.map_values(|e: (String, String)| (e.0@, e.1@))
    }

    #[verifier::type_invariant]
    closed spec fn keys_distinct(&self) -> bool {
        distinct_keys(self.entry_views())
    }
}

impl View for FieldMap {
    type V = Map<Seq<char>, Seq<char>>;

    closed spec fn view(&self) -> Map<Seq<char>, Seq<char>> {
        entries_map(self.entry_views())
    }
}

impl FieldMap {
    /// An empty map.
    pub fn new() -> (m: FieldMap)
        ensures
            m@ == Map::<Seq<char>, Seq<char>>::empty(),
    {
        let m = FieldMap { entries: Vec::new() };
        assert(m@ =~= Map::<Seq<char>, Seq<char>>::empty());
        m
    }

    /// Whether the map holds no key.
    pub fn is_empty(&self) -> (res: bool)
        ensures
            res == (self@ == Map::<Seq<char>, Seq<char>>::empty()),
    {
        proof {
            use_type_invariant(self);
        }
        let res = self.entries.len() == 0;
        proof {
            if res {
                assert(self@ =~= Map::<Seq<char>, Seq<char>>::empty());
            } else {
                lemma_entries_map_at(self.entry_views(), 0);
                assert(!Map::<Seq<char>, Seq<char>>::empty().contains_key(
                    self.entry_views()[0].0,
                ));
            }
        }
        res
    }

    /// Removes every key.
    pub fn clear(&mut self)
        ensures
            final(self)@ == Map::<Seq<char>, Seq<char>>::empty(),
    {
        self.entries = Vec::new();
        assert(self@ =~= Map::<Seq<char>, Seq<char>>::empty());
    }

    /// The position of `key`, if it is there.
    fn position(&self, key: &str) -> (res: Option<usize>)
        ensures
            match res {
                Some(i) => i < self.entries@.len() && self.entry_views()[i as int].0 == key@,
                None => !has_key(self.entry_views(), key@),
            },
    {
        let n = self.entries.len();
        let mut i: usize = 0;
        while i < n
            invariant
                n == self.entries@.len(),
                i <= n,
                forall|j: int| 0 <= j < i ==> (#[trigger] self.entry_views()[j]).0 != key@,
            decreases n - i,
        {
            assert(self.entry_views()[i as int].0 == self.entries@[i as int].0@);
            if same_text(self.entries[i].0.as_str(), key) {
                return Some(i);
            }
            i = i + 1;
        }
        None
    }

    /// The value of `key`, if it is there.
    pub fn get(&self, key: &str) -> (res: Option<&String>)
        ensures
            match res {
                Some(v) => self@.contains_key(key@) && self@[key@] == v@,
                None => !self@.contains_key(key@),
            },
    {
        proof {
            use_type_invariant(self);
        }
        match self.position(key) {
            Some(i) => {
                proof {
                    lemma_entries_map_at(self.entry_views(), i as int);
                }
                Some(&self.entries[i].1)
            },
            None => None,
        }
    }

    /// Sets the value of `key`; the value it had before, if any, is
    /// returned.
    pub fn insert(&mut self, key: String, value: String) -> (res: Option<String>)
        ensures
            final(self)@ == old(self)@.insert(key@, value@),
            match res {
                Some(v) => old(self)@.contains_key(key@) && old(self)@[key@] == v@,
                None => !old(self)@.contains_key(key@),
            },
    {
        proof {
            use_type_invariant(&*self);
        }
        let ghost old_ev = self.entry_views();
        let ghost old_map = self@;
        let found = self.position(key.as_str());
        let mut entries: Vec<(String, String)> = Vec::new();
        std::mem::swap(&mut entries, &mut self.entries);
        assert(entries@.map_values(|e: (String, String)| (e.0@, e.1@)) == old_ev);
        let ghost k = key@;
        let ghost v = value@;
        let res = match found {
            Some(i) => {
                let prev = entries[i].1.clone();
                proof {
                    lemma_entries_map_at(old_ev, i as int);
                }
                entries.set(i, (key, value));
                let ghost new_ev = entries@.map_values(|e: (String, String)| (e.0@, e.1@));
                proof {
                    assert(new_ev =~= old_ev.update(i as int, (k, v)));
                    assert(distinct_keys(new_ev));
                    assert forall|q: Seq<char>| #[trigger] has_key(new_ev, q) == old_map.insert(k, v).contains_key(q) by {
                        if has_key(old_ev, q) {
                            let j = choose|j: int| 0 <= j < old_ev.len() && (#[trigger] old_ev[j]).0 == q;
                            assert(new_ev[j].0 == q);
                        }
                        if has_key(new_ev, q) {
                            let j = choose|j: int| 0 <= j < new_ev.len() && (#[trigger] new_ev[j]).0 == q;
                            assert(old_ev[j].0 == q);
                        }
                    }
                    assert forall|q: Seq<char>| #[trigger] has_key(new_ev, q) implies entries_map(new_ev)[q] == old_map.insert(k, v)[q] by {
                        let j = choose|j: int| 0 <= j < new_ev.len() && (#[trigger] new_ev[j]).0 == q;
                        lemma_entries_map_at(new_ev, j);
                        if j != i {
                            lemma_entries_map_at(old_ev, j);
                        }
                    }
                    assert(entries_map(new_ev) =~= old_map.insert(k, v));
                }
                Some(prev)
            },
            None => {
                entries.push((key, value));
                let ghost new_ev = entries@.map_values(|e: (String, String)| (e.0@, e.1@));
                proof {
                    assert(new_ev =~= old_ev.push((k, v)));
                    assert(distinct_keys(new_ev)) by {
                        assert forall|a: int, b: int|
                            0 <= a < new_ev.len() && 0 <= b < new_ev.len() && a != b implies (#[trigger] new_ev[a]).0 != (#[trigger] new_ev[b]).0 by {
                            if a == old_ev.len() as int {
                                assert(new_ev[b] == old_ev[b]);
                                assert(old_ev[b].0 != k);
                            } else if b == old_ev.len() as int {
                                assert(new_ev[a] == old_ev[a]);
                                assert(old_ev[a].0 != k);
                            } else {
                                assert(new_ev[a] == old_ev[a]);
                                assert(new_ev[b] == old_ev[b]);
                            }
                        }
                    }
                    assert forall|q: Seq<char>| #[trigger] has_key(new_ev, q) == old_map.insert(k, v).contains_key(q) by {
                        if has_key(old_ev, q) {
                            let j = choose|j: int| 0 <= j < old_ev.len() && (#[trigger] old_ev[j]).0 == q;
                            assert(new_ev[j].0 == q);
                        }
                        if q == k {
                            assert(new_ev[old_ev.len() as int].0 == q);
                        }
                        if has_key(new_ev, q) && q != k {
                            let j = choose|j: int| 0 <= j < new_ev.len() && (#[trigger] new_ev[j]).0 == q;
                            assert(old_ev[j].0 == q);
                        }
                    }
                    assert forall|q: Seq<char>| #[trigger] has_key(new_ev, q) implies entries_map(new_ev)[q] == old_map.insert(k, v)[q] by {
                        let j = choose|j: int| 0 <= j < new_ev.len() && (#[trigger] new_ev[j]).0 == q;
                        lemma_entries_map_at(new_ev, j);
                        if j != old_ev.len() as int {
                            lemma_entries_map_at(old_ev, j);
                        }
                    }
                    assert(entries_map(new_ev) =~= old_map.insert(k, v));
                }
                None
            },
        };
        self.entries = entries;
        res
    }
}

/// The value of a key, if the map holds it.
pub open spec fn map_field(m: Map<Seq<char>, Seq<char>>, key: Seq<char>) -> Option<Seq<char>> {
    if m.contains_key(key) {
        Some(m[key])
    } else {
        None
    }
}

/// The fields of a block, by their keys.
pub open spec fn txt_fields(m: Map<Seq<char>, Seq<char>>) -> Seq<Option<Seq<char>>> {
    seq![
        map_field(m, "TX_ID"@),
        map_field(m, "TX_TYPE"@),
        map_field(m, "FROM_USER_ID"@),
        map_field(m, "TO_USER_ID"@),
        map_field(m, "AMOUNT"@),
        map_field(m, "TIMESTAMP"@),
        map_field(m, "STATUS"@),
        map_field(m, "DESCRIPTION"@),
    ]
}

/// What parsing the fields of a block gives.
pub open spec fn spec_parse_map(m: Map<Seq<char>, Seq<char>>) -> Result<RecordView, ParseFailure> {
    record_from_fields(txt_fields(m))
}

/// Builds a record from the fields of a block: `TX_ID`, `TX_TYPE`,
/// `FROM_USER_ID`, `TO_USER_ID`, `AMOUNT`, `TIMESTAMP`, `STATUS` and
/// `DESCRIPTION`, read in that order; a missing key is an invalid line.
pub fn parse_map(transaction_map: &FieldMap) -> (res: Result<TransactionRecord, ParseError>)
    ensures
        record_result_view(res) == spec_parse_map(transaction_map@),
{
    let mut fields: Vec<Option<&String>> = Vec::new();
    fields.push(transaction_map.get("TX_ID"));
    fields.push(transaction_map.get("TX_TYPE"));
    fields.push(transaction_map.get("FROM_USER_ID"));
    fields.push(transaction_map.get("TO_USER_ID"));
    fields.push(transaction_map.get("AMOUNT"));
    fields.push(transaction_map.get("TIMESTAMP"));
    fields.push(transaction_map.get("STATUS"));
    fields.push(transaction_map.get("DESCRIPTION"));
    assert(fields@.map_values(|f: Option<&String>| field_view(f)) =~= txt_fields(
        transaction_map@,
    ));
    build_record(&fields)
}

/// What the rest of the lines of text content give, from a state: whether a
/// block is open, the fields read so far and the records parsed so far.
/// A line that starts with `#` opens a block. An empty line closes it: if
/// fields were read, they must parse as a record, which is kept. A line in
/// an open block is trimmed and, if it holds `": "`, gives the value after it
/// to the key before it. Other lines are passed over. Fields still open at
/// the end are dropped.
pub open spec fn txt_from(
    lines: Seq<Seq<char>>,
    in_block: bool,
    m: Map<Seq<char>, Seq<char>>,
    acc: Seq<RecordView>,
) -> Result<Seq<RecordView>, ParseFailure>
    decreases lines.len(),
{
    if lines.len() == 0 {
        Ok(acc)
    } else {
        let line = lines[0];
        let rest = lines.drop_first();
        if line.len() > 0 && line[0] == '#' {
            txt_from(rest, true, m, acc)
        } else if line.len() == 0 {
            if m == Map::<Seq<char>, Seq<char>>::empty() {
                txt_from(rest, false, m, acc)
            } else {
                match spec_parse_map(m) {
                    Err(e) => Err(e),
                    Ok(r) => txt_from(rest, false, Map::empty(), acc.push(r)),
                }
            }
        } else if in_block {
            match split_key_value(trim(line)) {
                Some((k, v)) => txt_from(rest, true, m.insert(k, v), acc),
                None => txt_from(rest, true, m, acc),
            }
        } else {
            txt_from(rest, in_block, m, acc)
        }
    }
}

/// What parsing the lines of text content gives.
pub open spec fn txt_records(lines: Seq<Seq<char>>) -> Result<Seq<RecordView>, ParseFailure> {
    txt_from(lines, false, Map::empty(), seq![])
}

/// Parses text content, as `txt_records` says of its lines.
pub fn parse_txt_to_transactions(content: &[u8]) -> (res: Result<
    Vec<TransactionRecord>,
    ParseError,
>)
    ensures
        records_result_view(res) == txt_records(text_lines(content@)),
{
    let lines = split_lines(content);
    let ghost ls = lines@.map_values(|s: String| s@);
    let mut in_block = false;
    let mut transaction_map = FieldMap::new();
    let mut transactions: Vec<TransactionRecord> = Vec::new();
    let n = lines.len();
    let mut i: usize = 0;
    assert(ls.skip(0) =~= ls);
    assert(transactions@.map_values(|r: TransactionRecord| r@) =~= Seq::<RecordView>::empty());
    while i < n
        invariant
            n == lines@.len(),
            i <= n,
            ls == lines@.map_values(|s: String| s@),
            ls == text_lines(content@),
            txt_records(ls) == txt_from(
                ls.skip(i as int),
                in_block,
                transaction_map@,
                transactions@.map_values(|r: TransactionRecord| r@),
            ),
        decreases n - i,
    {
        let ghost before = transactions@.map_values(|r: TransactionRecord| r@);
        assert(ls.skip(i as int).drop_first() =~= ls.skip(i + 1));
        assert(ls.skip(i as int)[0] == lines@[i as int]@);
        let line = &lines[i];
        let cs = str_chars(line.as_str());
        if cs.len() > 0 && cs[0] == '#' {
            in_block = true;
        } else if cs.len() == 0 {
            in_block = false;
            if !transaction_map.is_empty() {
                let transaction = parse_map(&transaction_map);
                match transaction {
                    Ok(t) => {
                        transactions.push(t);
                        assert(transactions@.map_values(|r: TransactionRecord| r@) =~= before.push(
                            t@,
                        ));
                        transaction_map.clear();
                    },
                    Err(e) => {
                        return Err(e);
                    },
                }
            }
        } else if in_block {
            let (lo, hi) = trim_bounds(&cs);
            match split_key_value_pieces(line.as_str(), &cs, lo, hi) {
                Some((key, value)) => {
                    transaction_map.insert(key, value);
                },
                None => {},
            }
        }
        i = i + 1;
    }
    assert(ls.skip(n as int) =~= Seq::<Seq<char>>::empty());
    Ok(transactions)
}

/// Whether a block is open after the lines, from the state `open`: a `#`
/// line opens one, an empty line closes it, other lines keep the state.
pub open spec fn open_after(lines: Seq<Seq<char>>, open: bool) -> bool
    decreases lines.len(),
{
    if lines.len() == 0 {
        open
    } else {
        let l = lines[0];
        let next = if l.len() > 0 && l[0] == '#' {
            true
        } else if l.len() == 0 {
            false
        } else {
            open
        };
        open_after(lines.drop_first(), next)
    }
}

/// Two continuations that read alike from a closed block read alike after
/// any lines that leave the block closed.
proof fn lemma_same_after_closed_prefix(
    pre: Seq<Seq<char>>,
    t1: Seq<Seq<char>>,
    t2: Seq<Seq<char>>,
    open: bool,
    m: Map<Seq<char>, Seq<char>>,
    acc: Seq<RecordView>,
)
    requires
        !open_after(pre, open),
        forall|m2: Map<Seq<char>, Seq<char>>, acc2: Seq<RecordView>|
            #[trigger] txt_from(t1, false, m2, acc2) == txt_from(t2, false, m2, acc2),
    ensures
        txt_from(pre + t1, open, m, acc) == txt_from(pre + t2, open, m, acc),
    decreases pre.len(),
{
    if pre.len() == 0 {
        assert(pre + t1 =~= t1);
        assert(pre + t2 =~= t2);
    } else {
        let l = pre[0];
        let rest = pre.drop_first();
        assert((pre + t1)[0] == l);
        assert((pre + t2)[0] == l);
        assert((pre + t1).drop_first() =~= rest + t1);
        assert((pre + t2).drop_first() =~= rest + t2);
        if l.len() > 0 && l[0] == '#' {
            lemma_same_after_closed_prefix(rest, t1, t2, true, m, acc);
        } else if l.len() == 0 {
            if m == Map::<Seq<char>, Seq<char>>::empty() {
                lemma_same_after_closed_prefix(rest, t1, t2, false, m, acc);
            } else {
                match spec_parse_map(m) {
                    Err(_) => {},
                    Ok(r) => {
                        lemma_same_after_closed_prefix(rest, t1, t2, false, Map::empty(), acc.push(r));
                    },
                }
            }
        } else if open {
            match split_key_value(trim(l)) {
                Some((k, v)) => {
                    lemma_same_after_closed_prefix(rest, t1, t2, true, m.insert(k, v), acc);
                },
                None => {
                    lemma_same_after_closed_prefix(rest, t1, t2, true, m, acc);
                },
            }
        } else {
            lemma_same_after_closed_prefix(rest, t1, t2, open, m, acc);
        }
    }
}

/// A line that is neither empty nor starts with `#`, put where no block is
/// open (before the first `#` line, or after an empty line and before the
/// next `#` line), changes nothing that the text parse gives: lines outside a
/// block are never read as `KEY: value`.
pub proof fn law_txt_passes_over_outside_lines(
    pre: Seq<Seq<char>>,
    x: Seq<char>,
    post: Seq<Seq<char>>,
)
    requires
        !open_after(pre, false),
        x.len() > 0,
        x[0] != '#',
    ensures
        txt_records(pre + seq![x] + post) == txt_records(pre + post),
{
    let t1 = seq![x] + post;
    assert forall|m2: Map<Seq<char>, Seq<char>>, acc2: Seq<RecordView>|
        #[trigger] txt_from(t1, false, m2, acc2) == txt_from(post, false, m2, acc2) by {
        assert(t1[0] == x);
        assert(t1.drop_first() =~= post);
    }
    lemma_same_after_closed_prefix(pre, t1, post, false, Map::empty(), seq![]);
    assert(pre + seq![x] + post =~= pre + t1);
}

/// A block's record takes each field from the key of its name: when the
/// block maps `TX_ID`, `FROM_USER_ID`, `TO_USER_ID`, `AMOUNT` and `TIMESTAMP`
/// to the decimal texts of numbers, `TX_TYPE` and `STATUS` to names, and
/// `DESCRIPTION` to a text, the record holds those numbers, that kind and
/// state, and that text, each in the field of the same name.
pub proof fn law_block_fields(
    m: Map<Seq<char>, Seq<char>>,
    tx_id: u64,
    tx_type: TransactionType,
    from_user_id: u64,
    to_user_id: u64,
    amount: i64,
    timestamp: u64,
    status: TransactionStatus,
    description: Seq<char>,
)
    requires
        m.contains_key("TX_ID"@) && m["TX_ID"@] == decimal(tx_id as nat),
        m.contains_key("TX_TYPE"@) && m["TX_TYPE"@] == tx_type.spec_name(),
        m.contains_key("FROM_USER_ID"@) && m["FROM_USER_ID"@] == decimal(from_user_id as nat),
        m.contains_key("TO_USER_ID"@) && m["TO_USER_ID"@] == decimal(to_user_id as nat),
        m.contains_key("AMOUNT"@) && m["AMOUNT"@] == signed_decimal(amount as int),
        m.contains_key("TIMESTAMP"@) && m["TIMESTAMP"@] == decimal(timestamp as nat),
        m.contains_key("STATUS"@) && m["STATUS"@] == status.spec_name(),
        m.contains_key("DESCRIPTION"@) && m["DESCRIPTION"@] == description,
    ensures
        spec_parse_map(m) == Ok::<RecordView, ParseFailure>(
            RecordView {
                tx_id,
                tx_type,
                from_user_id,
                to_user_id,
                amount,
                timestamp,
                status,
                description,
            },
        ),
{
    lemma_parse_decimal_u64(tx_id);
    lemma_parse_decimal_u64(from_user_id);
    lemma_parse_decimal_u64(to_user_id);
    lemma_parse_decimal_i64(amount);
    lemma_parse_decimal_u64(timestamp);
    lemma_type_name(tx_type);
    lemma_status_name(status);
}

} // verus!
