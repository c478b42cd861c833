//! The textual form of table-operation annotations: a whitespace-separated,
//! case-insensitive sequence where `READ`/`R` and `WRITE`/`W` set the mode
//! for the table names that follow.

use vstd::prelude::*;

use crate::msql::{
    EndTxMode, Msql, MsqlBeginTx, MsqlEndTx, MsqlQuery, RWOperation, TableOp, TableOpV, TableOps,
    has_table, index_of_table, spec_add, tableops_unique,
};

verus! {

/// ASCII whitespace, the token separator of the grammar.
pub open spec fn is_ws(c: char) -> bool {
    c == ' ' || c == '\t' || c == '\n' || c == '\r'
}

/// The code of a character with an ASCII upper-case letter folded to lower
/// case.
pub open spec fn lower_code(c: char) -> u32 {
    if 65 <= c as u32 <= 90 {
        (c as u32 + 32) as u32
    } else {
        c as u32
    }
}

/// The token `R` or `READ`, in any case.
pub open spec fn is_kw_read(tok: Seq<char>) -> bool {
    (tok.len() == 1 && lower_code(tok[0]) == 114) || (tok.len() == 4 && lower_code(tok[0]) == 114
        && lower_code(tok[1]) == 101 && lower_code(tok[2]) == 97 && lower_code(tok[3]) == 100)
}

/// The token `W` or `WRITE`, in any case.
pub open spec fn is_kw_write(tok: Seq<char>) -> bool {
    (tok.len() == 1 && lower_code(tok[0]) == 119) || (tok.len() == 5 && lower_code(tok[0]) == 119
        && lower_code(tok[1]) == 114 && lower_code(tok[2]) == 105 && lower_code(tok[3]) == 116
        && lower_code(tok[4]) == 101)
}

/// The length of the leading run of non-whitespace characters.
pub open spec fn token_end(s: Seq<char>) -> nat
    decreases s.len(),
{
    if s.len() == 0 || is_ws(s[0]) {
        0
    } else {
        1 + token_end(s.subrange(1, s.len() as int))
    }
}

/// The whitespace-separated tokens of a string.
pub open spec fn spec_tokenize(s: Seq<char>) -> Seq<Seq<char>>
    decreases s.len(),
    via spec_tokenize_decreases
{
    if s.len() == 0 {
        Seq::empty()
    } else if is_ws(s[0]) {
        spec_tokenize(s.subrange(1, s.len() as int))
    } else {
        let k = token_end(s) as int;
        seq![s.subrange(0, k)] + spec_tokenize(s.subrange(k, s.len() as int))
    }
}

#[via_fn]
proof fn spec_tokenize_decreases(s: Seq<char>) {
    if s.len() > 0 && !is_ws(s[0]) {
        lemma_token_end_props(s);
    }
}

/// The grammar over tokens: mode tokens set the mode, table tokens need one.
pub open spec fn spec_parse(
    toks: Seq<Seq<char>>,
    mode: Option<RWOperation>,
    acc: Seq<TableOpV>,
) -> Option<Seq<TableOpV>>
    decreases toks.len(),
{
    if toks.len() == 0 {
        Some(acc)
    } else if is_kw_read(toks[0]) {
        spec_parse(toks.subrange(1, toks.len() as int), Some(RWOperation::R), acc)
    } else if is_kw_write(toks[0]) {
        spec_parse(toks.subrange(1, toks.len() as int), Some(RWOperation::W), acc)
    } else {
        match mode {
            None => None,
            Some(op) => spec_parse(
                toks.subrange(1, toks.len() as int),
                mode,
                spec_add(acc, TableOpV { table: toks[0], op }),
            ),
        }
    }
}

/// What parsing a whole string yields.
pub open spec fn spec_parse_tableops(s: Seq<char>) -> Option<Seq<TableOpV>> {
    spec_parse(spec_tokenize(s), None, Seq::empty())
}

/// The leading token run is exactly the non-whitespace prefix.
proof fn lemma_token_end_characterize(s: Seq<char>, k: int)
    requires
        0 <= k <= s.len(),
        forall|m: int| 0 <= m < k ==> !is_ws(s[m]),
        k == s.len() || is_ws(s[k]),
    ensures
        token_end(s) == k,
    decreases s.len(),
{
    if k == 0 {
    } else {
        let rest = s.subrange(1, s.len() as int);
        assert(forall|m: int| 0 <= m < k - 1 ==> rest[m] == s[m + 1] && !is_ws(rest[m]));
        if k - 1 < rest.len() {
            assert(rest[k - 1] == s[k]);
        }
        lemma_token_end_characterize(rest, k - 1);
    }
}

/// Every character of the leading token is non-whitespace, and the run stops
/// at the end or at whitespace.
proof fn lemma_token_end_props(s: Seq<char>)
    ensures
        token_end(s) <= s.len(),
        forall|m: int| 0 <= m < token_end(s) ==> !is_ws(s[m]),
        token_end(s) < s.len() ==> is_ws(s[token_end(s) as int]),
    decreases s.len(),
{
    if s.len() > 0 && !is_ws(s[0]) {
        let rest = s.subrange(1, s.len() as int);
        lemma_token_end_props(rest);
        assert(forall|m: int| 1 <= m < token_end(s) ==> s[m] == rest[m - 1]);
        if token_end(s) < s.len() {
            assert(s[token_end(s) as int] == rest[token_end(s) - 1]);
        }
    }
}

fn is_ws_exec(c: char) -> (r: bool)
    ensures
        r == is_ws(c),
{
    c == ' ' || c == '\t' || c == '\n' || c == '\r'
}

fn lower_exec(c: char) -> (r: u32)
    ensures
        r == lower_code(c),
{
    let u = c as u32;
    if 65 <= u && u <= 90 {
        u + 32
    } else {
        u
    }
}

/// Whether a token is the read keyword, in any case.
fn token_is_read(tok: &str) -> (r: bool)
    ensures
        r == is_kw_read(tok@),
{
    let n = tok.unicode_len();
    if n == 1 {
        lower_exec(tok.get_char(0)) == 114
    } else if n == 4 {
        lower_exec(tok.get_char(0)) == 114 && lower_exec(tok.get_char(1)) == 101 && lower_exec(
            tok.get_char(2),
        ) == 97 && lower_exec(tok.get_char(3)) == 100
    } else {
        false
    }
}

/// Whether a token is the write keyword, in any case.
fn token_is_write(tok: &str) -> (r: bool)
    ensures
        r == is_kw_write(tok@),
{
    let n = tok.unicode_len();
    if n == 1 {
        lower_exec(tok.get_char(0)) == 119
    } else if n == 5 {
        lower_exec(tok.get_char(0)) == 119 && lower_exec(tok.get_char(1)) == 114 && lower_exec(
            tok.get_char(2),
        ) == 105 && lower_exec(tok.get_char(3)) == 116 && lower_exec(tok.get_char(4)) == 101
    } else {
        false
    }
}

/// Split an annotation string into its whitespace-separated tokens.
fn tokenize(s: &str) -> (r: Vec<String>)
    requires
        s.is_ascii(),
    ensures
        r@.map_values(|t: String| t@) == spec_tokenize(s@),
{
    let n = s.unicode_len();
    let mut out: Vec<String> = Vec::new();
    let mut i: usize = 0;
    proof {
        assert(s@.subrange(0, n as int) =~= s@);
        assert(out@.map_values(|t: String| t@) =~= Seq::<Seq<char>>::empty());
        assert(out@.map_values(|t: String| t@) + spec_tokenize(s@) =~= spec_tokenize(s@));
    }
    while i < n
        invariant
            s.is_ascii(),
            n == s@.len(),
            i <= n,
            spec_tokenize(s@) == out@.map_values(|t: String| t@) + spec_tokenize(
                s@.subrange(i as int, n as int),
            ),
        decreases n - i,
    {
        let c = s.get_char(i);
        if is_ws_exec(c) {
            proof {
                let suf = s@.subrange(i as int, n as int);
                assert(suf[0] == s@[i as int]);
                assert(suf.subrange(1, suf.len() as int) =~= s@.subrange(i + 1, n as int));
            }
            i += 1;
        } else {
            let mut j = i + 1;
            while j < n && !is_ws_exec(s.get_char(j))
                invariant
                    s.is_ascii(),
                    n == s@.len(),
                    i < j <= n,
                    forall|m: int| i <= m < j ==> !is_ws(s@[m]),
                decreases n - j,
            {
                j += 1;
            }
            let tok = s.substring_ascii(i, j);
            let ghost prev = out@;
            out.push(tok.to_owned());
            proof {
                let suf = s@.subrange(i as int, n as int);
                assert(forall|m: int| 0 <= m < j - i ==> suf[m] == s@[m + i] && !is_ws(suf[m]));
                if j < n {
                    assert(suf[j - i] == s@[j as int]);
                }
                lemma_token_end_characterize(suf, j - i);
                assert(!is_ws(suf[0]));
                assert(suf.subrange(0, j - i) =~= s@.subrange(i as int, j as int));
                assert(suf.subrange(j - i, suf.len() as int) =~= s@.subrange(j as int, n as int));
                assert(tok@ == s@.subrange(i as int, j as int));
                assert(out@.map_values(|t: String| t@) =~= prev.map_values(|t: String| t@).push(
                    tok@,
                ));
                assert(spec_tokenize(suf) == seq![suf.subrange(0, j - i)] + spec_tokenize(
                    suf.subrange(j - i, suf.len() as int),
                ));
                assert(out@.map_values(|t: String| t@) + spec_tokenize(
                    s@.subrange(j as int, n as int),
                ) =~= prev.map_values(|t: String| t@) + (seq![tok@] + spec_tokenize(
                    s@.subrange(j as int, n as int),
                )));
            }
            i = j;
        }
    }
    proof {
        assert(s@.subrange(n as int, n as int) =~= Seq::<char>::empty());
        assert(spec_tokenize(Seq::<char>::empty()) =~= Seq::<Seq<char>>::empty());
        assert(out@.map_values(|t: String| t@) =~= out@.map_values(|t: String| t@) + Seq::<
            Seq<char>,
        >::empty());
    }
    out
}

/// Parse a token sequence under the grammar: mode keywords set the mode for
/// the table names that follow; a table before any keyword is an error.
fn parse_tokens(toks: &Vec<String>) -> (r: Result<TableOps, String>)
    ensures
        match r {
            Ok(t) => {
                &&& spec_parse(toks@.map_values(|t2: String| t2@), None, Seq::empty()) == Some(t@)
                &&& t.wf()
            },
            Err(_) => spec_parse(toks@.map_values(|t2: String| t2@), None, Seq::empty()) is None,
        },
{
    let ghost toks_v = toks@.map_values(|t2: String| t2@);
    let n = toks.len();
    let mut acc = TableOps::new();
    let mut mode: Option<RWOperation> = None;
    let mut i: usize = 0;
    proof {
        assert(toks_v.subrange(0, n as int) =~= toks_v);
        assert(acc@ =~= Seq::<TableOpV>::empty());
    }
    while i < n
        invariant
            n == toks@.len(),
            toks_v == toks@.map_values(|t2: String| t2@),
            i <= n,
            acc.wf(),
            spec_parse(toks_v, None, Seq::empty()) == spec_parse(
                toks_v.subrange(i as int, n as int),
                mode,
                acc@,
            ),
        decreases n - i,
    {
        let ghost suf = toks_v.subrange(i as int, n as int);
        proof {
            assert(suf[0] == toks_v[i as int]);
            assert(toks_v[i as int] == toks@[i as int]@);
            assert(suf.subrange(1, suf.len() as int) =~= toks_v.subrange(i + 1, n as int));
        }
        let tok = &toks[i];
        if token_is_read(tok.as_str()) {
            mode = Some(RWOperation::R);
        } else if token_is_write(tok.as_str()) {
            mode = Some(RWOperation::W);
        } else {
            match mode {
                None => {
                    return Err(
                        "Table name before any READ or WRITE keyword in the tableops text".to_owned(),
                    );
                },
                Some(op) => {
                    acc.add(TableOp::new(tok.as_str(), op));
                },
            }
        }
        i += 1;
    }
    proof {
        assert(toks_v.subrange(n as int, n as int) =~= Seq::<Seq<char>>::empty());
    }
    Ok(acc)
}

/// Parse an annotation string. Only ASCII text is accepted; keywords match in
/// any case; a duplicate table collapses to one entry, a write winning.
pub fn parse_tableops(s: &str) -> (r: Result<TableOps, String>)
    ensures
        match r {
            Ok(t) => {
                &&& s.is_ascii()
                &&& spec_parse_tableops(s@) == Some(t@)
                &&& t.wf()
            },
            Err(_) => !s.is_ascii() || spec_parse_tableops(s@) is None,
        },
{
    if !s.is_ascii() {
        return Err("Only ASCII tableops text is supported".to_owned());
    }
    let toks = tokenize(s);
    parse_tokens(&toks)
}

/// The keyword that sets the mode for an operation.
pub open spec fn kw(op: RWOperation) -> Seq<char> {
    if op == RWOperation::R {
        "READ"@
    } else {
        "WRITE"@
    }
}

/// The serialized form: each entry as its mode keyword, a space, the table
/// name and a space.
pub open spec fn spec_serialize(ops: Seq<TableOpV>) -> Seq<char>
    decreases ops.len(),
{
    if ops.len() == 0 {
        Seq::empty()
    } else {
        kw(ops[0].op) + seq![' '] + ops[0].table + seq![' '] + spec_serialize(
            ops.subrange(1, ops.len() as int),
        )
    }
}

/// The token sequence the serialized form spells out.
pub open spec fn tokens_of(ops: Seq<TableOpV>) -> Seq<Seq<char>>
    decreases ops.len(),
{
    if ops.len() == 0 {
        Seq::empty()
    } else {
        seq![kw(ops[0].op), ops[0].table] + tokens_of(ops.subrange(1, ops.len() as int))
    }
}

/// A spellable token: non-empty and whitespace-free.
pub open spec fn valid_token(t: Seq<char>) -> bool {
    t.len() > 0 && (forall|m: int| 0 <= m < t.len() ==> !is_ws(#[trigger] t[m]))
}

/// Every token of a sequence is spellable.
pub open spec fn tokens_valid(toks: Seq<Seq<char>>) -> bool {
    forall|i: int| 0 <= i < toks.len() ==> valid_token(#[trigger] toks[i])
}

/// A table name the grammar can spell: non-empty, without whitespace, and not
/// one of the mode keywords.
pub open spec fn valid_table_token(t: Seq<char>) -> bool {
    valid_token(t) && !is_kw_read(t) && !is_kw_write(t)
}

/// Tokenizing a non-whitespace token followed by a separator peels the token.
proof fn lemma_tokenize_token_prefix(tok: Seq<char>, rest: Seq<char>)
    requires
        tok.len() > 0,
        forall|m: int| 0 <= m < tok.len() ==> !is_ws(#[trigger] tok[m]),
        rest.len() == 0 || is_ws(rest[0]),
    ensures
        spec_tokenize(tok + rest) == seq![tok] + spec_tokenize(rest),
{
    let s = tok + rest;
    assert(s[0] == tok[0]);
    assert(forall|m: int| 0 <= m < tok.len() ==> s[m] == tok[m]);
    if rest.len() > 0 {
        assert(s[tok.len() as int] == rest[0]);
    }
    lemma_token_end_characterize(s, tok.len() as int);
    assert(s.subrange(0, tok.len() as int) =~= tok);
    assert(s.subrange(tok.len() as int, s.len() as int) =~= rest);
}

/// Tokenizing skips leading whitespace.
proof fn lemma_tokenize_skip_ws(s: Seq<char>)
    requires
        s.len() > 0,
        is_ws(s[0]),
    ensures
        spec_tokenize(s) == spec_tokenize(s.subrange(1, s.len() as int)),
{
}

/// The mode keywords are non-empty, whitespace-free tokens.
proof fn lemma_kw_token(op: RWOperation)
    ensures
        kw(op).len() > 0,
        forall|m: int| 0 <= m < kw(op).len() ==> !is_ws(#[trigger] kw(op)[m]),
        op == RWOperation::R ==> is_kw_read(kw(op)),
        op == RWOperation::W ==> is_kw_write(kw(op)) && !is_kw_read(kw(op)),
{
    reveal_strlit("READ");
    reveal_strlit("WRITE");
    if op == RWOperation::R {
        assert(kw(op).len() == 4);
        assert(kw(op)[0] == 'R' && kw(op)[1] == 'E' && kw(op)[2] == 'A' && kw(op)[3] == 'D');
        assert forall|m: int| 0 <= m < kw(op).len() implies !is_ws(#[trigger] kw(op)[m]) by {
            assert(kw(op)[m] == 'R' || kw(op)[m] == 'E' || kw(op)[m] == 'A' || kw(op)[m] == 'D');
        }
    } else {
        assert(kw(op).len() == 5);
        assert(kw(op)[0] == 'W' && kw(op)[1] == 'R' && kw(op)[2] == 'I' && kw(op)[3] == 'T' && kw(
            op,
        )[4] == 'E');
        assert forall|m: int| 0 <= m < kw(op).len() implies !is_ws(#[trigger] kw(op)[m]) by {
            assert(kw(op)[m] == 'W' || kw(op)[m] == 'R' || kw(op)[m] == 'I' || kw(op)[m] == 'T'
                || kw(op)[m] == 'E');
        }
    }
}

/// The serialized form tokenizes to exactly its keyword and table tokens.
proof fn lemma_tokenize_serialize(ops: Seq<TableOpV>)
    requires
        forall|i: int| 0 <= i < ops.len() ==> valid_table_token((#[trigger] ops[i]).table),
    ensures
        spec_tokenize(spec_serialize(ops)) == tokens_of(ops),
    decreases ops.len(),
{
    if ops.len() > 0 {
        let rest = ops.subrange(1, ops.len() as int);
        let tail = spec_serialize(rest);
        let table = ops[0].table;
        let k = kw(ops[0].op);
        lemma_kw_token(ops[0].op);
        let s = spec_serialize(ops);
        let after_kw = seq![' '] + table + seq![' '] + tail;
        assert(s =~= k + after_kw);
        assert(after_kw[0] == ' ');
        lemma_tokenize_token_prefix(k, after_kw);
        let after_sp = table + seq![' '] + tail;
        assert(after_kw.subrange(1, after_kw.len() as int) =~= after_sp);
        lemma_tokenize_skip_ws(after_kw);
        let after_table = seq![' '] + tail;
        assert(after_sp =~= table + after_table);
        assert(after_table[0] == ' ');
        lemma_tokenize_token_prefix(table, after_table);
        assert(after_table.subrange(1, after_table.len() as int) =~= tail);
        lemma_tokenize_skip_ws(after_table);
        assert(forall|i: int| 0 <= i < rest.len() ==> rest[i] == ops[i + 1]);
        lemma_tokenize_serialize(rest);
        assert(spec_tokenize(s) =~= seq![k] + (seq![table] + tokens_of(rest)));
        assert(tokens_of(ops) =~= seq![k, table] + tokens_of(rest));
        assert(seq![k] + (seq![table] + tokens_of(rest)) =~= seq![k, table] + tokens_of(rest));
    }
}

/// Parsing the spelled-out tokens of a unique annotation appends it whole.
proof fn lemma_parse_tokens_of(ops: Seq<TableOpV>, mode: Option<RWOperation>, acc: Seq<TableOpV>)
    requires
        tableops_unique(acc + ops),
        forall|i: int| 0 <= i < ops.len() ==> valid_table_token((#[trigger] ops[i]).table),
    ensures
        spec_parse(tokens_of(ops), mode, acc) == Some(acc + ops),
    decreases ops.len(),
{
    if ops.len() == 0 {
        assert(acc + ops =~= acc);
    } else {
        let rest = ops.subrange(1, ops.len() as int);
        let toks = tokens_of(ops);
        lemma_kw_token(ops[0].op);
        assert(toks[0] == kw(ops[0].op));
        let toks1 = toks.subrange(1, toks.len() as int);
        assert(toks1 =~= seq![ops[0].table] + tokens_of(rest));
        assert(toks1[0] == ops[0].table);
        assert(!is_kw_read(toks1[0]) && !is_kw_write(toks1[0]));
        let acc2 = spec_add(acc, TableOpV { table: ops[0].table, op: ops[0].op });
        assert((acc + ops)[acc.len() as int] == ops[0]);
        assert(!has_table(acc, ops[0].table)) by {
            if has_table(acc, ops[0].table) {
                let j = index_of_table(acc, ops[0].table);
                assert((acc + ops)[j] == acc[j]);
                assert((acc + ops)[j].table == (acc + ops)[acc.len() as int].table);
            }
        }
        assert(TableOpV { table: ops[0].table, op: ops[0].op } == ops[0]);
        assert(acc2 == acc.push(ops[0]));
        assert(acc2 + rest =~= acc + ops);
        assert(forall|i: int| 0 <= i < rest.len() ==> rest[i] == ops[i + 1]);
        lemma_parse_tokens_of(rest, Some(ops[0].op), acc2);
        assert(toks1.subrange(1, toks1.len() as int) =~= tokens_of(rest));
        assert(spec_parse(toks, mode, acc) == spec_parse(toks1, Some(ops[0].op), acc));
        assert(spec_parse(toks1, Some(ops[0].op), acc) == spec_parse(
            tokens_of(rest),
            Some(ops[0].op),
            acc2,
        ));
    }
}

/// Serializing a whitespace-free, keyword-free, unique annotation and parsing
/// the result gives the annotation back.
pub proof fn lemma_serialize_parse(ops: Seq<TableOpV>)
    requires
        tableops_unique(ops),
        forall|i: int| 0 <= i < ops.len() ==> valid_table_token((#[trigger] ops[i]).table),
    ensures
        spec_parse_tableops(spec_serialize(ops)) == Some(ops),
{
    lemma_tokenize_serialize(ops);
    assert(Seq::<TableOpV>::empty() + ops =~= ops);
    lemma_parse_tokens_of(ops, None, Seq::empty());
}

/// Every token the tokenizer yields is non-empty and whitespace-free.
proof fn lemma_tokenize_valid(s: Seq<char>)
    ensures
        tokens_valid(spec_tokenize(s)),
    decreases s.len(),
{
    let toks = spec_tokenize(s);
    if s.len() == 0 {
        assert(tokens_valid(toks));
    } else if is_ws(s[0]) {
        lemma_tokenize_valid(s.subrange(1, s.len() as int));
    } else {
        lemma_token_end_props(s);
        let k = token_end(s) as int;
        lemma_tokenize_valid(s.subrange(k, s.len() as int));
        let rest_toks = spec_tokenize(s.subrange(k, s.len() as int));
        assert(toks[0] == s.subrange(0, k));
        assert(forall|i: int| 1 <= i < toks.len() ==> toks[i] == rest_toks[i - 1]);
        assert forall|i: int| 0 <= i < toks.len() implies valid_token(#[trigger] toks[i]) by {
            if i == 0 {
                assert(toks[0].len() == k);
                assert(k >= 1);
                assert forall|m: int| 0 <= m < toks[0].len() implies !is_ws(
                    #[trigger] toks[0][m],
                ) by {
                    assert(toks[0][m] == s[m]);
                }
            } else {
                assert(valid_token(rest_toks[i - 1]));
            }
        }
        assert(tokens_valid(toks));
    }
}

/// What parsing yields has unique tables, each a spellable token.
proof fn lemma_parse_valid(toks: Seq<Seq<char>>, mode: Option<RWOperation>, acc: Seq<TableOpV>)
    requires
        tokens_valid(toks),
        tableops_unique(acc),
        forall|i: int| 0 <= i < acc.len() ==> valid_table_token((#[trigger] acc[i]).table),
    ensures
        match spec_parse(toks, mode, acc) {
            Some(ops) => tableops_unique(ops) && (forall|i: int|
                0 <= i < ops.len() ==> valid_table_token((#[trigger] ops[i]).table)),
            None => true,
        },
    decreases toks.len(),
{
    if toks.len() == 0 {
    } else {
        let rest = toks.subrange(1, toks.len() as int);
        assert(forall|i: int| 0 <= i < rest.len() ==> rest[i] == toks[i + 1]);
        assert forall|i: int| 0 <= i < rest.len() implies valid_token(#[trigger] rest[i]) by {
            assert(valid_token(toks[i + 1]));
        }
        assert(tokens_valid(rest));
        if is_kw_read(toks[0]) {
            lemma_parse_valid(rest, Some(RWOperation::R), acc);
        } else if is_kw_write(toks[0]) {
            lemma_parse_valid(rest, Some(RWOperation::W), acc);
        } else {
            match mode {
                None => {},
                Some(op) => {
                    let t = TableOpV { table: toks[0], op };
                    let acc2 = spec_add(acc, t);
                    assert(valid_token(toks[0]));
                    assert(valid_table_token(toks[0]));
                    assert(tableops_unique(acc2) && (forall|i: int|
                        0 <= i < acc2.len() ==> valid_table_token((#[trigger] acc2[i]).table)))
                        by {
                        if has_table(acc, t.table) {
                            let k = index_of_table(acc, t.table);
                            assert(forall|i: int|
                                0 <= i < acc2.len() ==> (#[trigger] acc2[i]).table == acc[i].table);
                        } else {
                            assert(forall|i: int|
                                0 <= i < acc.len() ==> (#[trigger] acc2[i]) == acc[i]);
                            assert(acc2[acc.len() as int] == t);
                            assert forall|a: int, b: int| 0 <= a < b < acc2.len() implies acc2[
                            a].table != acc2[b].table by {
                                if b == acc.len() {
                                    if acc[a].table == t.table {
                                        assert(has_table(acc, t.table));
                                    }
                                }
                            }
                        }
                    }
                    lemma_parse_valid(rest, mode, acc2);
                },
            }
        }
    }
}

/// Parsing a `tableops` string, serializing the result back, and parsing it
/// again yields the same annotation.
pub proof fn lemma_parse_serialize_parse(s: Seq<char>, ops: Seq<TableOpV>)
    requires
        spec_parse_tableops(s) == Some(ops),
    ensures
        spec_parse_tableops(spec_serialize(ops)) == Some(ops),
{
    lemma_tokenize_valid(s);
    lemma_parse_valid(spec_tokenize(s), None, Seq::empty());
    lemma_serialize_parse(ops);
}

/// Peeling the last entry off the serialized form.
proof fn lemma_serialize_snoc(ops: Seq<TableOpV>, x: TableOpV)
    ensures
        spec_serialize(ops.push(x)) == spec_serialize(ops) + (kw(x.op) + seq![' '] + x.table
            + seq![' ']),
    decreases ops.len(),
{
    let whole = ops.push(x);
    if ops.len() == 0 {
        assert(whole[0] == x);
        assert(whole.subrange(1, whole.len() as int) =~= Seq::<TableOpV>::empty());
        assert(spec_serialize(whole.subrange(1, whole.len() as int)) =~= Seq::<char>::empty());
        assert(spec_serialize(whole) =~= kw(x.op) + seq![' '] + x.table + seq![' '] + Seq::<
            char,
        >::empty());
        assert(spec_serialize(ops) =~= Seq::<char>::empty());
        assert(spec_serialize(whole) =~= spec_serialize(ops) + (kw(x.op) + seq![' '] + x.table
            + seq![' ']));
    } else {
        assert(whole[0] == ops[0]);
        assert(whole.subrange(1, whole.len() as int) =~= ops.subrange(1, ops.len() as int).push(x));
        lemma_serialize_snoc(ops.subrange(1, ops.len() as int), x);
        assert(spec_serialize(whole) =~= spec_serialize(ops) + (kw(x.op) + seq![' '] + x.table
            + seq![' ']));
    }
}

/// Spell an annotation back out: each entry as its mode keyword, a space, the
/// table name and a space.
pub fn serialize_tableops(tableops: &TableOps) -> (r: String)
    ensures
        r@ == spec_serialize(tableops@),
{
    let ops = tableops.get();
    let n = ops.len();
    let mut out = String::new();
    let mut i: usize = 0;
    while i < n
        invariant
            n == ops@.len(),
            ops@.map_values(|t: crate::msql::TableOp| t@) == tableops@,
            i <= n,
            out@ == spec_serialize(tableops@.subrange(0, i as int)),
        decreases n - i,
    {
        proof {
            assert(ops@[i as int]@ == tableops@[i as int]);
            lemma_serialize_snoc(tableops@.subrange(0, i as int), tableops@[i as int]);
            assert(tableops@.subrange(0, i + 1 as int) =~= tableops@.subrange(0, i as int).push(
                tableops@[i as int],
            ));
        }
        match ops[i].op() {
            RWOperation::R => out.append("READ"),
            RWOperation::W => out.append("WRITE"),
        }
        out.append(" ");
        out.append(ops[i].table().as_str());
        out.append(" ");
        proof {
            assert(" "@ =~= seq![' ']) by {
                reveal_strlit(" ");
            }
            assert(out@ =~= spec_serialize(tableops@.subrange(0, i + 1 as int)));
        }
        i += 1;
    }
    proof {
        assert(tableops@.subrange(0, n as int) =~= tableops@);
    }
    out
}

/// A request in its textual form: the table annotations still unparsed.
#[derive(Debug)]
pub enum MsqlText {
    BeginTx { tx_name: Option<String>, tableops: String },
    Query { sql: String, tableops: String, early_release: String },
    EndTx { tx_name: Option<String>, mode: EndTxMode },
}

/// What a textual request must parse to.
pub open spec fn spec_msql_from_text(text: MsqlText, m: crate::msql::MsqlV) -> bool {
    match text {
        MsqlText::BeginTx { tx_name, tableops } => match m {
            crate::msql::MsqlV::BeginTx(b) => {
                &&& Some(b.tableops) == spec_parse_tableops(tableops@)
                &&& b.tx_name == (match tx_name {
                    Some(n) => Some(n@),
                    None => None::<Seq<char>>,
                })
            },
            _ => false,
        },
        MsqlText::Query { sql, tableops, early_release } => match m {
            crate::msql::MsqlV::Query(q) => {
                &&& q.sql == sql@
                &&& Some(q.tableops) == spec_parse_tableops(tableops@)
                &&& q.early_release == spec_tokenize(early_release@)
            },
            _ => false,
        },
        MsqlText::EndTx { tx_name, mode } => match m {
            crate::msql::MsqlV::EndTx(e) => e.mode == mode && e.tx_name == (match tx_name {
                Some(n) => Some(n@),
                None => None::<Seq<char>>,
            }),
            _ => false,
        },
    }
}

/// Parse a textual request into the grammar, or say what is wrong with it.
pub fn msql_from_text(text: MsqlText) -> (r: Result<Msql, String>)
    ensures
        match r {
            Ok(m) => m.wf() && spec_msql_from_text(text, m@),
            Err(_) => match text {
                MsqlText::BeginTx { tx_name: _, tableops } => !vstd::utf8::is_ascii_chars(
                    tableops@,
                ) || spec_parse_tableops(tableops@) is None,
                MsqlText::Query { sql: _, tableops, early_release } => !vstd::utf8::is_ascii_chars(
                    tableops@,
                ) || spec_parse_tableops(tableops@) is None || !vstd::utf8::is_ascii_chars(
                    early_release@,
                ),
                MsqlText::EndTx { .. } => false,
            },
        },
{
    match text {
        MsqlText::BeginTx { tx_name, tableops } => {
            match parse_tableops(tableops.as_str()) {
                Ok(ops) => Ok(Msql::BeginTx(MsqlBeginTx::new(tx_name, ops))),
                Err(m) => Err(m),
            }
        },
        MsqlText::Query { sql, tableops, early_release } => {
            match parse_tableops(tableops.as_str()) {
                Ok(ops) => {
                    match parse_table_names(early_release.as_str()) {
                        Ok(er) => Ok(Msql::Query(MsqlQuery::new(sql, ops, er))),
                        Err(m) => Err(m),
                    }
                },
                Err(m) => Err(m),
            }
        },
        MsqlText::EndTx { tx_name, mode } => Ok(Msql::EndTx(MsqlEndTx::new(tx_name, mode))),
    }
}

/// Parse a whitespace-separated list of table names, as the early-release
/// annotation is written. Only ASCII text is accepted.
pub fn parse_table_names(s: &str) -> (r: Result<Vec<String>, String>)
    ensures
        match r {
            Ok(names) => s.is_ascii() && names@.map_values(|t: String| t@) == spec_tokenize(s@),
            Err(_) => !s.is_ascii(),
        },
{
    if !s.is_ascii() {
        return Err("Only ASCII table names are supported".to_owned());
    }
    Ok(tokenize(s))
}

} // verus!
