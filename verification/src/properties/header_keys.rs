//! A record read from KIF or KI2 names each header key once.

use vstd::prelude::*;
use crate::jkf::JsonKifuFormat;
use crate::parser::header_block::{
    apply_info, info_line, info_lines, insert_all, key_index, map_insert, merged, spec_parse_without_moves, InfoView,
};
use crate::parser::kakinoki::LineShapes;
use crate::parser::tree::{record_read, NodeT};

verus! {

/// No two entries of `m` share a key.
pub open spec fn keys_distinct(m: Seq<(Seq<char>, Seq<char>)>) -> bool {
    forall|i: int, k: int| 0 <= i < k < m.len() ==> (#[trigger] m[i]).0 != (#[trigger] m[k]).0
}

proof fn lemma_key_index(m: Seq<(Seq<char>, Seq<char>)>, key: Seq<char>, n: int)
    requires
        0 <= n <= m.len(),
    ensures
        key_index(m, key, n) == -1 ==> forall|j: int| 0 <= j < n ==> (#[trigger] m[j]).0 != key,
        key_index(m, key, n) != -1 ==> 0 <= key_index(m, key, n) < n && m[key_index(m, key, n)].0 == key,
    decreases n,
{
    if n > 0 {
        lemma_key_index(m, key, n - 1);
    }
}

proof fn lemma_map_insert(m: Seq<(Seq<char>, Seq<char>)>, key: Seq<char>, v: Seq<char>)
    requires
        keys_distinct(m),
    ensures
        keys_distinct(map_insert(m, key, v)),
{
    lemma_key_index(m, key, m.len() as int);
    let r = map_insert(m, key, v);
    assert forall|i: int, k: int| 0 <= i < k < r.len() implies (#[trigger] r[i]).0 != (#[trigger] r[k]).0 by {
        if i < m.len() && k < m.len() {
            assert(m[i].0 != m[k].0);
        } else {
            assert(m[i].0 != key);
        }
    }
}

proof fn lemma_insert_all(m: Seq<(Seq<char>, Seq<char>)>, es: Seq<(Seq<char>, Seq<char>)>)
    requires
        keys_distinct(m),
    ensures
        keys_distinct(insert_all(m, es)),
    decreases es.len(),
{
    if es.len() > 0 {
        lemma_map_insert(m, es[0].0, es[0].1);
        lemma_insert_all(map_insert(m, es[0].0, es[0].1), es.drop_first());
    }
}

proof fn lemma_info_lines(shapes: LineShapes, s: Seq<char>, i: int, acc: InfoView)
    requires
        keys_distinct(acc.map),
    ensures
        info_lines(shapes, s, i, acc) matches Ok((info, _)) ==> keys_distinct(info.map),
    decreases s.len() - i,
{
    match info_line(shapes, s, i) {
        Ok((item, n)) => {
            let next = apply_info(acc, item);
            match item {
                crate::parser::header_block::InfoItem::KeyValue(k, v) => lemma_map_insert(acc.map, k, v),
                _ => {},
            }
            assert(keys_distinct(next.map));
            if i < n <= s.len() {
                lemma_info_lines(shapes, s, n, next);
            }
        },
        _ => {},
    }
}

/// The block above the moves names each key once: a later line with a key
/// already named replaces the earlier value, above and below a board alike.
pub proof fn a_header_block_names_each_key_once(shapes: LineShapes, s: Seq<char>)
    requires
        spec_parse_without_moves(shapes, s) is Ok,
    ensures
        keys_distinct(spec_parse_without_moves(shapes, s)->Ok_0.0.info.map),
{
    let e = crate::parser::header_block::empty_info();
    assert(keys_distinct(e.map));
    lemma_info_lines(shapes, s, 0, e);
    let (info1, a) = info_lines(shapes, s, 0, e)->Ok_0;
    let read = crate::parser::kakinoki::spec_board(s, a);
    let b = match read {
        Ok((_, x)) => x,
        _ => a,
    };
    lemma_info_lines(shapes, s, b, e);
    let info2 = info_lines(shapes, s, b, e)->Ok_0.0;
    lemma_insert_all(info1.map, info2.map);
}

/// A record a KIF or KI2 reader makes names each header key once: no two of
/// its header entries have the same key.
pub proof fn a_record_read_names_each_key_once(shapes: LineShapes, s: Seq<char>, ts: Seq<NodeT>, j: JsonKifuFormat)
    requires
        spec_parse_without_moves(shapes, s) is Ok,
        record_read(j, spec_parse_without_moves(shapes, s)->Ok_0.0, ts),
    ensures
        forall|i: int, k: int| 0 <= i < k < j.header@.len() ==> (#[trigger] j.header@[i]).0@ != (#[trigger] j.header@[k]).0@,
{
    a_header_block_names_each_key_once(shapes, s);
    let m = spec_parse_without_moves(shapes, s)->Ok_0.0.info.map;
    assert forall|i: int, k: int| 0 <= i < k < j.header@.len() implies (#[trigger] j.header@[i]).0@ != (#[trigger] j.header@[k]).0@ by {
        assert(j.header@.map_values(|x: (String, String)| (x.0@, x.1@))[i] == m[i]);
        assert(j.header@.map_values(|x: (String, String)| (x.0@, x.1@))[k] == m[k]);
    }
}

} // verus!
