//! Steam account commands: finding the signed-in user in `loginusers.vdf`.
use vstd::prelude::*;
use crate::text::{
    chars_of, is_ws, lemma_split_first, lemma_split_none, lines, lowercase, next_line, range_eq,
    skip_ws_from, split_char, split_ranges, string_of_range, to_lowercase, trim, trim_end_at,
    trim_range,
};
use crate::number::{
    dec, is_digit, lemma_dec_digits, lemma_parse_unsigned_dec, parse_uint, parse_unsigned, push_dec,
};
use crate::steam::sync::SyncPlan;
use crate::steam::web_api::PlayerSummary;

verus! {

broadcast use vstd::string::group_string_axioms;

/// What the scan of `loginusers.vdf` has gathered so far.
pub struct LoginScan {
    pub cur_id: Seq<char>,
    pub cur_persona: Seq<char>,
    pub cur_recent: bool,
    pub best_id: Seq<char>,
    pub best_persona: Seq<char>,
    pub best_ts: nat,
    pub in_user: bool,
    pub depth: int,
}

/// The result of reading one line: go on, or stop with a user.
pub enum LoginStep {
    Go(LoginScan),
    Found(Seq<char>, Seq<char>),
}

pub open spec fn login_start() -> LoginScan {
    LoginScan {
        cur_id: seq![],
        cur_persona: seq![],
        cur_recent: false,
        best_id: seq![],
        best_persona: seq![],
        best_ts: 0,
        in_user: false,
        depth: 0,
    }
}

/// A `"key" "value"` line inside a user block.
pub open spec fn login_field(st: LoginScan, key: Seq<char>, value: Seq<char>) -> LoginScan {
    if key == "personaname"@ {
        LoginScan { cur_persona: value, ..st }
    } else if key == "mostrecent"@ {
        LoginScan { cur_recent: value == "1"@, ..st }
    } else if key == "timestamp"@ {
        match parse_unsigned(value, 0xffff_ffff_ffff_ffff) {
            Ok(ts) => if ts > st.best_ts {
                LoginScan { best_ts: ts, best_id: st.cur_id, best_persona: st.cur_persona, ..st }
            } else {
                st
            },
            Err(_) => st,
        }
    } else {
        st
    }
}

/// One line of `loginusers.vdf`: braces change the depth; the closing brace of a
/// user block marked `MostRecent` "1" ends the scan with that user; a quoted key at
/// depth 1 opens a user; `"key" "value"` lines at depth 2 fill it in.
pub open spec fn login_step(st: LoginScan, raw: Seq<char>) -> LoginStep {
    let t = trim(raw);
    if t == "{"@ {
        LoginStep::Go(LoginScan { depth: st.depth + 1, ..st })
    } else if t == "}"@ {
        if st.depth == 2 && st.in_user {
            if st.cur_recent {
                LoginStep::Found(st.cur_id, st.cur_persona)
            } else {
                LoginStep::Go(
                    LoginScan { in_user: false, cur_recent: false, depth: st.depth - 1, ..st },
                )
            }
        } else {
            LoginStep::Go(LoginScan { depth: st.depth - 1, ..st })
        }
    } else {
        let parts = split_char(t, '"');
        let st1 = if st.depth == 1 && parts.len() >= 2 {
            LoginScan { cur_id: parts[1], cur_persona: seq![], cur_recent: false, in_user: true, ..st }
        } else {
            st
        };
        if st1.depth == 2 && st1.in_user && parts.len() >= 4 {
            LoginStep::Go(login_field(st1, lowercase(parts[1]), parts[3]))
        } else {
            LoginStep::Go(st1)
        }
    }
}

/// Runs the scan over the remaining lines; without a `MostRecent` user, the user with
/// the greatest timestamp, if any was recorded.
pub open spec fn login_run(st: LoginScan, ls: Seq<Seq<char>>) -> Option<(Seq<char>, Seq<char>)>
    decreases ls.len(),
{
    if ls.len() == 0 {
        if st.best_id.len() > 0 {
            Some((st.best_id, st.best_persona))
        } else {
            None
        }
    } else {
        match login_step(st, ls[0]) {
            LoginStep::Found(id, persona) => Some((id, persona)),
            LoginStep::Go(next) => login_run(next, ls.drop_first()),
        }
    }
}

/// The (SteamID, persona name) that `loginusers.vdf` text designates.
pub open spec fn login_user(content: Seq<char>) -> Option<(Seq<char>, Seq<char>)> {
    login_run(login_start(), lines(content))
}

/// Finds the most recently signed-in user in the text of `loginusers.vdf`: the user
/// marked `MostRecent` "1", else the one with the greatest `Timestamp`.
pub fn parse_loginusers_vdf(content: &str) -> (r: Option<(String, String)>)
    requires
        content@.len() <= 0x7fff_ffff_ffff_ffff,
    ensures
        match r {
            Some((id, persona)) => login_user(content@) == Some((id@, persona@)),
            None => login_user(content@) is None,
        },
{
    let cs = chars_of(content);
    let n = cs.len();
    let lbrace = chars_of("{");
    let rbrace = chars_of("}");
    let one = chars_of("1");
    let personaname = String::from_str("personaname");
    let mostrecent = String::from_str("mostrecent");
    let timestamp = String::from_str("timestamp");
    let mut cur_id = String::new();
    let mut cur_persona = String::new();
    let mut cur_recent = false;
    let mut best_id = String::new();
    let mut best_persona = String::new();
    let mut best_ts: u64 = 0;
    let mut in_user = false;
    let mut depth: i64 = 0;
    assert(cs@.subrange(0, n as int) =~= cs@);
    let mut pos: usize = 0;
    while pos < n
        invariant
            pos <= n == cs.len(),
            n <= 0x7fff_ffff_ffff_ffff,
            cs@ == content@,
            lbrace@ == "{"@,
            rbrace@ == "}"@,
            one@ == "1"@,
            personaname@ == "personaname"@,
            mostrecent@ == "mostrecent"@,
            timestamp@ == "timestamp"@,
            -(pos as int) <= depth <= pos,
            login_user(content@) == login_run(
                LoginScan {
                    cur_id: cur_id@,
                    cur_persona: cur_persona@,
                    cur_recent,
                    best_id: best_id@,
                    best_persona: best_persona@,
                    best_ts: best_ts as nat,
                    in_user,
                    depth: depth as int,
                },
                lines(cs@.subrange(pos as int, n as int)),
            ),
        decreases n - pos,
    {
        let ghost st = LoginScan {
            cur_id: cur_id@,
            cur_persona: cur_persona@,
            cur_recent,
            best_id: best_id@,
            best_persona: best_persona@,
            best_ts: best_ts as nat,
            in_user,
            depth: depth as int,
        };
        let (a, b, next) = next_line(&cs, pos);
        let (ta, tb) = trim_range(&cs, a, b);
        let ghost ls = lines(cs@.subrange(pos as int, n as int));
        let ghost t = cs@.subrange(ta as int, tb as int);
        assert(ls[0] == cs@.subrange(a as int, b as int));
        assert(ls.drop_first() =~= lines(cs@.subrange(next as int, n as int)));
        assert(trim(ls[0]) == t);
        if range_eq(&cs, ta, tb, &lbrace) {
            depth = depth + 1;
        } else if range_eq(&cs, ta, tb, &rbrace) {
            if depth == 2 && in_user {
                if cur_recent {
                    return Some((cur_id, cur_persona));
                }
                in_user = false;
                cur_recent = false;
            }
            depth = depth - 1;
        } else {
            let parts = split_ranges(&cs, ta, tb, '"');
            let ghost sp = split_char(t, '"');
            if depth == 1 && parts.len() >= 2 {
                cur_id = string_of_range(&cs, parts[1].0, parts[1].1);
                cur_persona = String::new();
                cur_recent = false;
                in_user = true;
            }
            if depth == 2 && in_user && parts.len() >= 4 {
                let raw_key = string_of_range(&cs, parts[1].0, parts[1].1);
                let key = to_lowercase(raw_key.as_str());
                let (va, vb) = parts[3];
                if key == personaname {
                    cur_persona = string_of_range(&cs, va, vb);
                } else if key == mostrecent {
                    cur_recent = range_eq(&cs, va, vb, &one);
                } else if key == timestamp {
                    match parse_uint(&cs, va, vb, 0xffff_ffff_ffff_ffff) {
                        Ok(ts) => {
                            if ts > best_ts {
                                best_ts = ts;
                                best_id = cur_id.clone();
                                best_persona = cur_persona.clone();
                            }
                        },
                        Err(_) => {},
                    }
                }
            }
        }
        pos = next;
    }
    assert(cs@.subrange(n as int, n as int) =~= Seq::<char>::empty());
    if !best_id.as_str().is_empty() {
        Some((best_id, best_persona))
    } else {
        None
    }
}


/// One user block of `loginusers.vdf` as Steam writes it: the SteamID line, then the
/// `PersonaName`, `MostRecent` and `Timestamp` fields, in that order.
pub struct LoginBlock {
    pub id: Seq<char>,
    pub persona: Seq<char>,
    pub recent: bool,
    pub timestamp: nat,
}

pub open spec fn quoted(s: Seq<char>) -> Seq<char> {
    seq!['"'] + s + seq!['"']
}

pub open spec fn field_line(key: Seq<char>, value: Seq<char>) -> Seq<char> {
    quoted(key) + seq!['\t', '\t'] + quoted(value)
}

/// The lines of one user block; `keys` are the spellings of the three field names.
pub open spec fn block_lines(b: LoginBlock, keys: (Seq<char>, Seq<char>, Seq<char>)) -> Seq<
    Seq<char>,
> {
    seq![
        quoted(b.id),
        seq!['{'],
        field_line(keys.0, b.persona),
        field_line(keys.1, if b.recent { seq!['1'] } else { seq!['0'] }),
        field_line(keys.2, dec(b.timestamp)),
        seq!['}'],
    ]
}

pub open spec fn blocks_lines(bs: Seq<LoginBlock>, keys: (Seq<char>, Seq<char>, Seq<char>)) -> Seq<
    Seq<char>,
>
    decreases bs.len(),
{
    if bs.len() == 0 {
        seq![]
    } else {
        block_lines(bs[0], keys) + blocks_lines(bs.drop_first(), keys)
    }
}

/// The lines of a `loginusers.vdf` that holds the user blocks `bs`.
pub open spec fn loginusers_lines(bs: Seq<LoginBlock>, keys: (Seq<char>, Seq<char>, Seq<char>)) -> Seq<
    Seq<char>,
> {
    seq![quoted(seq!['u', 's', 'e', 'r', 's']), seq!['{']] + blocks_lines(bs, keys) + seq![
        seq!['}'],
    ]
}

/// A block whose SteamID is not empty, whose texts hold no quote, and whose timestamp
/// fits in a `u64`.
pub open spec fn well_formed_block(b: LoginBlock) -> bool {
    &&& b.id.len() > 0
    &&& !b.id.contains('"')
    &&& !b.persona.contains('"')
    &&& b.timestamp <= 0xffff_ffff_ffff_ffff
}

/// The three key spellings lowercase to the field names the scan looks for.
pub open spec fn keys_name_fields(keys: (Seq<char>, Seq<char>, Seq<char>)) -> bool {
    &&& lowercase(keys.0) == "personaname"@
    &&& lowercase(keys.1) == "mostrecent"@
    &&& lowercase(keys.2) == "timestamp"@
}

/// What the scan holds once a block that is not marked `MostRecent` has been read.
spec fn after_block(st: LoginScan, b: LoginBlock) -> LoginScan {
    LoginScan {
        cur_id: b.id,
        cur_persona: b.persona,
        cur_recent: false,
        best_id: if b.timestamp > st.best_ts { b.id } else { st.best_id },
        best_persona: if b.timestamp > st.best_ts { b.persona } else { st.best_persona },
        best_ts: if b.timestamp > st.best_ts { b.timestamp } else { st.best_ts },
        in_user: false,
        depth: 1,
    }
}

/// The choice among blocks, given the best user found before them.
spec fn choose_block(bs: Seq<LoginBlock>, bi: Seq<char>, bp: Seq<char>, bt: nat) -> Option<
    (Seq<char>, Seq<char>),
>
    decreases bs.len(),
{
    if bs.len() == 0 {
        if bi.len() > 0 {
            Some((bi, bp))
        } else {
            None
        }
    } else if bs[0].recent {
        Some((bs[0].id, bs[0].persona))
    } else if bs[0].timestamp > bt {
        choose_block(bs.drop_first(), bs[0].id, bs[0].persona, bs[0].timestamp)
    } else {
        choose_block(bs.drop_first(), bi, bp, bt)
    }
}

proof fn lemma_trim_same(s: Seq<char>)
    requires
        s.len() > 0,
        !is_ws(s[0]),
        !is_ws(s[s.len() - 1]),
    ensures
        trim(s) == s,
{
    assert(skip_ws_from(s, 0) == 0);
    assert(trim_end_at(s, 0, s.len() as int) == s.len());
    assert(s.subrange(0, s.len() as int) =~= s);
}

proof fn lemma_split_quoted(a: Seq<char>)
    requires
        !a.contains('"'),
    ensures
        split_char(quoted(a), '"') == seq![Seq::<char>::empty(), a, Seq::<char>::empty()],
{
    let e = Seq::<char>::empty();
    assert(!e.contains('"'));
    lemma_split_first(e, a + seq!['"'], '"');
    assert(e + seq!['"'] + (a + seq!['"']) =~= quoted(a));
    lemma_split_first(a, e, '"');
    assert(a + seq!['"'] + e =~= a + seq!['"']);
    lemma_split_none(e, '"');
    assert(split_char(quoted(a), '"') =~= seq![e, a, e]);
}

proof fn lemma_split_field(k: Seq<char>, v: Seq<char>)
    requires
        !k.contains('"'),
        !v.contains('"'),
    ensures
        split_char(field_line(k, v), '"') == seq![
            Seq::<char>::empty(),
            k,
            seq!['\t', '\t'],
            v,
            Seq::<char>::empty(),
        ],
{
    let e = Seq::<char>::empty();
    let tt = seq!['\t', '\t'];
    assert(!e.contains('"'));
    assert(!tt.contains('"')) by {
        if tt.contains('"') {
            let i = choose|i: int| 0 <= i < tt.len() && tt[i] == '"';
            assert(tt[i] == '\t');
        }
    }
    let r3 = v + seq!['"'];
    let r2 = tt + seq!['"'] + r3;
    let r1 = k + seq!['"'] + r2;
    assert(e + seq!['"'] + r1 =~= field_line(k, v));
    lemma_split_first(e, r1, '"');
    lemma_split_first(k, r2, '"');
    lemma_split_first(tt, r3, '"');
    lemma_split_first(v, e, '"');
    assert(v + seq!['"'] + e =~= r3);
    lemma_split_none(e, '"');
    assert(split_char(field_line(k, v), '"') =~= seq![e, k, tt, v, e]);
}

proof fn lemma_quoted_line(s: Seq<char>)
    ensures
        quoted(s).len() == s.len() + 2,
        quoted(s)[0] == '"',
        quoted(s)[quoted(s).len() - 1] == '"',
{
}

proof fn lemma_field_line(k: Seq<char>, v: Seq<char>)
    ensures
        field_line(k, v).len() == k.len() + v.len() + 6,
        field_line(k, v)[0] == '"',
        field_line(k, v)[field_line(k, v).len() - 1] == '"',
{
}

/// Reading one user block from depth 1: the block's user when it is marked
/// `MostRecent` "1", else the scan goes on with the block's timestamp weighed.
proof fn lemma_login_block(
    st: LoginScan,
    b: LoginBlock,
    keys: (Seq<char>, Seq<char>, Seq<char>),
    rest: Seq<Seq<char>>,
)
    requires
        st.depth == 1,
        !st.in_user,
        well_formed_block(b),
        !keys.0.contains('"'),
        !keys.1.contains('"'),
        !keys.2.contains('"'),
        keys_name_fields(keys),
    ensures
        login_run(st, block_lines(b, keys) + rest) == if b.recent {
            Some((b.id, b.persona))
        } else {
            login_run(after_block(st, b), rest)
        },
{
    reveal_strlit("{");
    reveal_strlit("}");
    reveal_strlit("1");
    reveal_strlit("personaname");
    reveal_strlit("mostrecent");
    reveal_strlit("timestamp");
    let e = Seq::<char>::empty();
    let value = if b.recent { seq!['1'] } else { seq!['0'] };
    assert(!value.contains('"')) by {
        if value.contains('"') {
            let i = choose|i: int| 0 <= i < value.len() && value[i] == '"';
            assert(value[i] == '1' || value[i] == '0');
        }
    }
    let ts = dec(b.timestamp);
    lemma_dec_digits(b.timestamp);
    assert(!ts.contains('"')) by {
        if ts.contains('"') {
            let i = choose|i: int| 0 <= i < ts.len() && ts[i] == '"';
            assert(is_digit(ts[i]));
        }
    }
    lemma_parse_unsigned_dec(b.timestamp, 0xffff_ffff_ffff_ffff);
    let l0 = quoted(b.id);
    let l1 = seq!['{'];
    let l2 = field_line(keys.0, b.persona);
    let l3 = field_line(keys.1, value);
    let l4 = field_line(keys.2, ts);
    let l5 = seq!['}'];
    lemma_quoted_line(b.id);
    lemma_field_line(keys.0, b.persona);
    lemma_field_line(keys.1, value);
    lemma_field_line(keys.2, ts);
    lemma_trim_same(l0);
    lemma_trim_same(l1);
    lemma_trim_same(l2);
    lemma_trim_same(l3);
    lemma_trim_same(l4);
    lemma_trim_same(l5);
    lemma_split_quoted(b.id);
    lemma_split_field(keys.0, b.persona);
    lemma_split_field(keys.1, value);
    lemma_split_field(keys.2, ts);
    let ls0 = block_lines(b, keys) + rest;
    let ls1 = seq![l1, l2, l3, l4, l5] + rest;
    let ls2 = seq![l2, l3, l4, l5] + rest;
    let ls3 = seq![l3, l4, l5] + rest;
    let ls4 = seq![l4, l5] + rest;
    let ls5 = seq![l5] + rest;
    assert(ls0[0] == l0);
    assert(ls0.drop_first() =~= ls1);
    assert(ls1[0] == l1);
    assert(ls1.drop_first() =~= ls2);
    assert(ls2[0] == l2);
    assert(ls2.drop_first() =~= ls3);
    assert(ls3[0] == l3);
    assert(ls3.drop_first() =~= ls4);
    assert(ls4[0] == l4);
    assert(ls4.drop_first() =~= ls5);
    assert(ls5[0] == l5);
    assert(ls5.drop_first() =~= rest);
    let s1 = LoginScan { cur_id: b.id, cur_persona: e, cur_recent: false, in_user: true, ..st };
    assert(l0 != "{"@ && l0 != "}"@);
    assert(login_step(st, l0) == LoginStep::Go(s1));
    let s2 = LoginScan { depth: 2, ..s1 };
    assert(l1 =~= "{"@);
    assert(l5 =~= "}"@);
    assert(login_step(s1, l1) == LoginStep::Go(s2));
    let s3 = LoginScan { cur_persona: b.persona, ..s2 };
    assert(l2 != "{"@ && l2 != "}"@);
    assert(login_field(s2, lowercase(keys.0), b.persona) == s3);
    assert(login_step(s2, l2) == LoginStep::Go(s3));
    let s4 = LoginScan { cur_recent: b.recent, ..s3 };
    assert(l3 != "{"@ && l3 != "}"@);
    assert("mostrecent"@.len() == 10 && "personaname"@.len() == 11);
    assert("mostrecent"@ != "personaname"@);
    assert("1"@ =~= seq!['1']);
    if !b.recent {
        assert(value[0] != "1"@[0]);
    }
    assert((value == "1"@) == b.recent);
    assert(login_field(s3, lowercase(keys.1), value) == s4);
    assert(login_step(s3, l3) == LoginStep::Go(s4));
    let s5 = if b.timestamp > st.best_ts {
        LoginScan { best_ts: b.timestamp, best_id: b.id, best_persona: b.persona, ..s4 }
    } else {
        s4
    };
    assert(l4 != "{"@ && l4 != "}"@);
    assert("timestamp"@.len() == 9);
    assert("timestamp"@ != "personaname"@ && "timestamp"@ != "mostrecent"@);
    assert(login_field(s4, lowercase(keys.2), ts) == s5);
    assert(login_step(s4, l4) == LoginStep::Go(s5));
    assert(login_run(st, ls0) == login_run(s1, ls1));
    assert(login_run(s1, ls1) == login_run(s2, ls2));
    assert(login_run(s2, ls2) == login_run(s3, ls3));
    assert(login_run(s3, ls3) == login_run(s4, ls4));
    assert(login_run(s4, ls4) == login_run(s5, ls5));
    if b.recent {
        assert(login_step(s5, l5) == LoginStep::Found(b.id, b.persona));
    } else {
        assert(login_step(s5, l5) == LoginStep::Go(after_block(st, b)));
    }
}

/// Reading the blocks and the closing brace from depth 1.
proof fn lemma_login_blocks(
    st: LoginScan,
    bs: Seq<LoginBlock>,
    keys: (Seq<char>, Seq<char>, Seq<char>),
)
    requires
        st.depth == 1,
        !st.in_user,
        forall|i: int| 0 <= i < bs.len() ==> well_formed_block(#[trigger] bs[i]),
        !keys.0.contains('"'),
        !keys.1.contains('"'),
        !keys.2.contains('"'),
        keys_name_fields(keys),
    ensures
        login_run(st, blocks_lines(bs, keys) + seq![seq!['}']]) == choose_block(
            bs,
            st.best_id,
            st.best_persona,
            st.best_ts,
        ),
    decreases bs.len(),
{
    reveal_strlit("{");
    reveal_strlit("}");
    let close = seq!['}'];
    assert(close =~= "}"@);
    if bs.len() == 0 {
        let ls = blocks_lines(bs, keys) + seq![close];
        assert(ls =~= seq![close]);
        lemma_trim_same(close);
        let next = LoginScan { depth: 0, ..st };
        assert(login_step(st, close) == LoginStep::Go(next));
        assert(ls.drop_first() =~= Seq::<Seq<char>>::empty());
        assert(login_run(next, ls.drop_first()) == choose_block(
            bs,
            st.best_id,
            st.best_persona,
            st.best_ts,
        ));
    } else {
        let rest = blocks_lines(bs.drop_first(), keys) + seq![close];
        assert(blocks_lines(bs, keys) + seq![close] =~= block_lines(bs[0], keys) + rest);
        assert(well_formed_block(bs[0]));
        lemma_login_block(st, bs[0], keys, rest);
        if !bs[0].recent {
            let tail = bs.drop_first();
            assert forall|i: int| 0 <= i < tail.len() implies well_formed_block(#[trigger] tail[i]) by {
                assert(tail[i] == bs[i + 1]);
            }
            lemma_login_blocks(after_block(st, bs[0]), tail, keys);
        }
    }
}

proof fn lemma_choose_recent(bs: Seq<LoginBlock>, bi: Seq<char>, bp: Seq<char>, bt: nat, i: int)
    requires
        0 <= i < bs.len(),
        bs[i].recent,
        forall|k: int| 0 <= k < i ==> !(#[trigger] bs[k]).recent,
    ensures
        choose_block(bs, bi, bp, bt) == Some((bs[i].id, bs[i].persona)),
    decreases i,
{
    if i > 0 {
        assert(!bs[0].recent);
        let tail = bs.drop_first();
        assert forall|k: int| 0 <= k < i - 1 implies !(#[trigger] tail[k]).recent by {
            assert(tail[k] == bs[k + 1]);
        }
        assert(tail[i - 1] == bs[i]);
        if bs[0].timestamp > bt {
            lemma_choose_recent(tail, bs[0].id, bs[0].persona, bs[0].timestamp, i - 1);
        } else {
            lemma_choose_recent(tail, bi, bp, bt, i - 1);
        }
    }
}

proof fn lemma_choose_kept(bs: Seq<LoginBlock>, bi: Seq<char>, bp: Seq<char>, bt: nat)
    requires
        forall|k: int| 0 <= k < bs.len() ==> !(#[trigger] bs[k]).recent && bs[k].timestamp <= bt,
    ensures
        choose_block(bs, bi, bp, bt) == if bi.len() > 0 {
            Some((bi, bp))
        } else {
            None
        },
    decreases bs.len(),
{
    if bs.len() > 0 {
        assert(!bs[0].recent && bs[0].timestamp <= bt);
        let tail = bs.drop_first();
        assert forall|k: int| 0 <= k < tail.len() implies !(#[trigger] tail[k]).recent
            && tail[k].timestamp <= bt by {
            assert(tail[k] == bs[k + 1]);
        }
        lemma_choose_kept(tail, bi, bp, bt);
    }
}

proof fn lemma_choose_latest(bs: Seq<LoginBlock>, bi: Seq<char>, bp: Seq<char>, bt: nat, j: int)
    requires
        0 <= j < bs.len(),
        bs[j].id.len() > 0,
        bs[j].timestamp > bt,
        forall|k: int| 0 <= k < bs.len() ==> !(#[trigger] bs[k]).recent && bs[k].timestamp
            <= bs[j].timestamp,
        forall|k: int| 0 <= k < j ==> (#[trigger] bs[k]).timestamp < bs[j].timestamp,
    ensures
        choose_block(bs, bi, bp, bt) == Some((bs[j].id, bs[j].persona)),
    decreases j,
{
    let tail = bs.drop_first();
    assert(!bs[0].recent);
    if j == 0 {
        assert forall|k: int| 0 <= k < tail.len() implies !(#[trigger] tail[k]).recent
            && tail[k].timestamp <= bs[0].timestamp by {
            assert(tail[k] == bs[k + 1]);
        }
        lemma_choose_kept(tail, bs[0].id, bs[0].persona, bs[0].timestamp);
    } else {
        assert(bs[0].timestamp < bs[j].timestamp);
        assert(tail[j - 1] == bs[j]);
        assert forall|k: int| 0 <= k < tail.len() implies !(#[trigger] tail[k]).recent
            && tail[k].timestamp <= tail[j - 1].timestamp by {
            assert(tail[k] == bs[k + 1]);
        }
        assert forall|k: int| 0 <= k < j - 1 implies (#[trigger] tail[k]).timestamp
            < tail[j - 1].timestamp by {
            assert(tail[k] == bs[k + 1]);
        }
        if bs[0].timestamp > bt {
            lemma_choose_latest(tail, bs[0].id, bs[0].persona, bs[0].timestamp, j - 1);
        } else {
            lemma_choose_latest(tail, bi, bp, bt, j - 1);
        }
    }
}

/// Which user `loginusers.vdf` designates, for a file laid out as Steam writes it
/// (whatever the spelling of its field names, as long as they lowercase to
/// `personaname`, `mostrecent` and `timestamp`): the first user marked `MostRecent`
/// "1"; when none is, the first user with the greatest non-zero `Timestamp`; when no
/// user has either, none.
pub proof fn law_login_user_choice(
    content: Seq<char>,
    bs: Seq<LoginBlock>,
    keys: (Seq<char>, Seq<char>, Seq<char>),
)
    requires
        forall|i: int| 0 <= i < bs.len() ==> well_formed_block(#[trigger] bs[i]),
        !keys.0.contains('"'),
        !keys.1.contains('"'),
        !keys.2.contains('"'),
        lines(content) == loginusers_lines(bs, keys),
    ensures
        keys_name_fields(keys) ==> forall|i: int|
            0 <= i < bs.len() && #[trigger] bs[i].recent && (forall|k: int|
                0 <= k < i ==> !(#[trigger] bs[k]).recent) ==> login_user(content) == Some(
                (bs[i].id, bs[i].persona),
            ),
        keys_name_fields(keys) && (forall|k: int| 0 <= k < bs.len() ==> !(#[trigger] bs[k]).recent)
            ==> forall|j: int|
            0 <= j < bs.len() && #[trigger] bs[j].timestamp > 0 && (forall|k: int|
                0 <= k < bs.len() ==> (#[trigger] bs[k]).timestamp <= bs[j].timestamp) && (forall|
                k: int,
            |
                0 <= k < j ==> (#[trigger] bs[k]).timestamp < bs[j].timestamp) ==> login_user(
                content,
            ) == Some((bs[j].id, bs[j].persona)),
        keys_name_fields(keys) && (forall|k: int|
            0 <= k < bs.len() ==> !(#[trigger] bs[k]).recent && bs[k].timestamp == 0)
            ==> login_user(content) is None,
{
    if keys_name_fields(keys) {
        reveal_strlit("{");
        reveal_strlit("}");
        let header = quoted(seq!['u', 's', 'e', 'r', 's']);
        let open = seq!['{'];
        assert(open =~= "{"@);
        assert(!seq!['u', 's', 'e', 'r', 's'].contains('"')) by {
            let u = seq!['u', 's', 'e', 'r', 's'];
            if u.contains('"') {
                let i = choose|i: int| 0 <= i < u.len() && u[i] == '"';
                assert(u[i] != '"');
            }
        }
        lemma_quoted_line(seq!['u', 's', 'e', 'r', 's']);
        lemma_trim_same(header);
        lemma_trim_same(open);
        lemma_split_quoted(seq!['u', 's', 'e', 'r', 's']);
        let body = blocks_lines(bs, keys) + seq![seq!['}']];
        let ls = loginusers_lines(bs, keys);
        assert(ls[0] == header);
        assert(ls.drop_first() =~= seq![open] + body);
        assert((seq![open] + body)[0] == open);
        assert((seq![open] + body).drop_first() =~= body);
        let st0 = login_start();
        assert(header != "{"@ && header != "}"@);
        assert(login_step(st0, header) == LoginStep::Go(st0));
        let st1 = LoginScan { depth: 1, ..st0 };
        assert(login_step(st0, open) == LoginStep::Go(st1));
        assert(login_user(content) == login_run(st0, ls));
        assert(login_run(st0, ls) == login_run(st0, seq![open] + body));
        assert(login_run(st0, seq![open] + body) == login_run(st1, body));
        lemma_login_blocks(st1, bs, keys);
        assert forall|i: int|
            0 <= i < bs.len() && #[trigger] bs[i].recent && (forall|k: int|
                0 <= k < i ==> !(#[trigger] bs[k]).recent) implies login_user(content) == Some(
            (bs[i].id, bs[i].persona),
        ) by {
            lemma_choose_recent(bs, seq![], seq![], 0, i);
        }
        if forall|k: int| 0 <= k < bs.len() ==> !(#[trigger] bs[k]).recent {
            assert forall|j: int|
                0 <= j < bs.len() && #[trigger] bs[j].timestamp > 0 && (forall|k: int|
                    0 <= k < bs.len() ==> (#[trigger] bs[k]).timestamp <= bs[j].timestamp) && (
                forall|k: int| 0 <= k < j ==> (#[trigger] bs[k]).timestamp < bs[j].timestamp)
                implies login_user(content) == Some((bs[j].id, bs[j].persona)) by {
                assert(well_formed_block(bs[j]));
                lemma_choose_latest(bs, seq![], seq![], 0, j);
            }
        }
        if forall|k: int| 0 <= k < bs.len() ==> !(#[trigger] bs[k]).recent && bs[k].timestamp == 0 {
            lemma_choose_kept(bs, seq![], seq![], 0);
        }
    }
}

/// What a synchronisation did: games added, games updated, stored games marked as no
/// longer installed, the errors met on the way, and when it finished (Unix seconds).
#[derive(Debug, Clone)]
pub struct SyncResult {
    pub added: i64,
    pub updated: i64,
    pub removed: i64,
    pub errors: Vec<String>,
    pub synced_at: i64,
}

/// The Steam user the application shows as signed in.
#[derive(Debug, Clone)]
pub struct SteamUser {
    pub steamid: String,
    pub personaname: String,
    pub avatar: String,
    pub avatarfull: String,
    pub profileurl: String,
    pub is_public: bool,
}

pub open spec fn profile_url_of(steamid: Seq<char>) -> Seq<char> {
    "https://steamcommunity.com/profiles/"@ + steamid
}

/// The community profile page of a SteamID.
pub fn profile_url(steamid: &str) -> (r: String)
    ensures
        r@ == profile_url_of(steamid@),
{
    let mut r = String::from_str("https://steamcommunity.com/profiles/");
    r.append(steamid);
    r
}

/// The name shown for a user whose profile could not be fetched.
pub fn fallback_persona(steam_id: u64) -> (r: String)
    ensures
        r@ == "SteamUser_"@ + dec(steam_id as nat),
{
    let mut r = String::from_str("SteamUser_");
    push_dec(&mut r, steam_id);
    r
}

/// The user found in `loginusers.vdf`, with the avatars of the profile when it could be
/// fetched and empty ones otherwise.
pub fn detected_user(steamid: String, personaname: String, avatars: Option<(String, String)>) -> (u: SteamUser)
    ensures
        u.steamid@ == steamid@,
        u.personaname@ == personaname@,
        u.avatar@ == match avatars {
            Some((a, _)) => a@,
            None => Seq::<char>::empty(),
        },
        u.avatarfull@ == match avatars {
            Some((_, f)) => f@,
            None => Seq::<char>::empty(),
        },
        u.profileurl@ == profile_url_of(steamid@),
        u.is_public,
{
    let profileurl = profile_url(steamid.as_str());
    let (avatar, avatarfull) = match avatars {
        Some((a, f)) => (a, f),
        None => (String::new(), String::new()),
    };
    SteamUser { steamid, personaname, avatar, avatarfull, profileurl, is_public: true }
}

/// The user signed in through OpenID: named and pictured by the profile when it could be
/// fetched, else named `SteamUser_<id>` with no avatar.
pub fn signed_in_user(steam_id: u64, player: Option<PlayerSummary>) -> (u: SteamUser)
    ensures
        u.steamid@ == dec(steam_id as nat),
        u.personaname@ == match player {
            Some(p) => p.personaname@,
            None => "SteamUser_"@ + dec(steam_id as nat),
        },
        u.avatar@ == match player {
            Some(p) => p.avatar@,
            None => Seq::<char>::empty(),
        },
        u.avatarfull@ == match player {
            Some(p) => p.avatarfull@,
            None => Seq::<char>::empty(),
        },
        u.profileurl@ == profile_url_of(dec(steam_id as nat)),
        u.is_public,
{
    let mut steamid = String::new();
    push_dec(&mut steamid, steam_id);
    assert(steamid@ =~= dec(steam_id as nat));
    let profileurl = profile_url(steamid.as_str());
    let (personaname, avatar, avatarfull) = match player {
        Some(p) => (p.personaname, p.avatar, p.avatarfull),
        None => (fallback_persona(steam_id), String::new(), String::new()),
    };
    SteamUser { steamid, personaname, avatar, avatarfull, profileurl, is_public: true }
}

/// A Steam user as plain values.
pub struct UserView {
    pub steamid: Seq<char>,
    pub personaname: Seq<char>,
    pub avatar: Seq<char>,
    pub avatarfull: Seq<char>,
    pub profileurl: Seq<char>,
    pub is_public: bool,
}

pub open spec fn user_view(u: SteamUser) -> UserView {
    UserView {
        steamid: u.steamid@,
        personaname: u.personaname@,
        avatar: u.avatar@,
        avatarfull: u.avatarfull@,
        profileurl: u.profileurl@,
        is_public: u.is_public,
    }
}

/// The user read back from a stored SteamID, name and avatar.
pub open spec fn stored_user(steamid: Seq<char>, personaname: Seq<char>, avatar: Seq<char>) -> UserView {
    UserView {
        steamid,
        personaname,
        avatar,
        avatarfull: avatar,
        profileurl: profile_url_of(steamid),
        is_public: true,
    }
}

/// A user kept in the settings reads back as itself: a signed-in or detected user (its
/// profile page that of its SteamID, public) whose SteamID, name and avatar are stored
/// is read back with the same SteamID, name, avatar and profile page; only the large
/// avatar becomes the stored one.
pub proof fn law_saved_user_read_back(u: UserView)
    requires
        u.profileurl == profile_url_of(u.steamid),
        u.is_public,
    ensures
        stored_user(u.steamid, u.personaname, u.avatar) == (UserView { avatarfull: u.avatar, ..u }),
{
}

/// The user kept in the settings, if a SteamID is stored; the one avatar serves as both.
pub fn saved_user(steam_id: Option<String>, personaname: String, avatar: String) -> (r: Option<SteamUser>)
    ensures
        steam_id is None <==> r is None,
        steam_id matches Some(id) ==> (r matches Some(u) && user_view(u) == stored_user(id@, personaname@, avatar@)),
        steam_id matches Some(id) ==> (r matches Some(u) && u.steamid@ == id@ && u.personaname@ == personaname@
            && u.avatar@ == avatar@ && u.avatarfull@ == avatar@ && u.profileurl@ == profile_url_of(id@)
            && u.is_public),
{
    match steam_id {
        Some(steamid) => {
            let profileurl = profile_url(steamid.as_str());
            let avatarfull = avatar.clone();
            Some(SteamUser { steamid, personaname, avatar, avatarfull, profileurl, is_public: true })
        },
        None => None,
    }
}

/// The result of a synchronisation that found no Steam installation.
pub fn no_steam_result(synced_at: i64) -> (r: SyncResult)
    ensures
        r.added == 0 && r.updated == 0 && r.removed == 0,
        r.errors@.len() == 1,
        r.errors@[0]@ == "Steam installation not found"@,
        r.synced_at == synced_at,
{
    let mut errors: Vec<String> = Vec::new();
    errors.push(String::from_str("Steam installation not found"));
    SyncResult { added: 0, updated: 0, removed: 0, errors, synced_at }
}

/// The error recorded when the owned games could not be fetched.
pub fn api_fetch_error(e: &str) -> (r: String)
    ensures
        r@ == "API fetch failed: "@ + e@,
{
    let mut r = String::from_str("API fetch failed: ");
    r.append(e);
    r
}

/// The result of a synchronisation from its plan, the stored games it marked as no longer
/// installed, and the errors met.
pub fn sync_result(plan: &SyncPlan, unseen: &Vec<i64>, errors: Vec<String>, synced_at: i64) -> (r: SyncResult)
    requires
        unseen.len() <= 0x7fff_ffff_ffff_ffff,
    ensures
        r.added == plan.added,
        r.updated == plan.updated,
        r.removed == unseen.len(),
        r.errors@ == errors@,
        r.synced_at == synced_at,
{
    SyncResult { added: plan.added, updated: plan.updated, removed: unseen.len() as i64, errors, synced_at }
}

/// The file name of an app's manifest.
pub fn appmanifest_file_name(app_id: u32) -> (r: String)
    ensures
        r@ == "appmanifest_"@ + dec(app_id as nat) + ".acf"@,
{
    let mut r = String::from_str("appmanifest_");
    push_dec(&mut r, app_id as u64);
    r.append(".acf");
    r
}

/// The error of `read_acf_file` when no library holds the manifest.
pub fn acf_not_found(app_id: u32) -> (r: String)
    ensures
        r@ == "ACF file not found for AppID "@ + dec(app_id as nat),
{
    let mut r = String::from_str("ACF file not found for AppID ");
    push_dec(&mut r, app_id as u64);
    r
}

/// The first place that exists, of places tried in order.
pub fn first_existing(exists: &Vec<bool>) -> (r: Option<usize>)
    ensures
        match r {
            Some(i) => i < exists.len() && exists@[i as int] && forall|j: int| 0 <= j < i ==> !exists@[j],
            None => forall|j: int| 0 <= j < exists.len() ==> !exists@[j],
        },
{
    let mut i: usize = 0;
    while i < exists.len()
        invariant
            i <= exists.len(),
            forall|j: int| 0 <= j < i ==> !exists@[j],
        decreases exists.len() - i,
    {
        if exists[i] {
            return Some(i);
        }
        i += 1;
    }
    None
}

/// Where Steam may be installed on Linux, in the order they are tried.
pub fn linux_steam_root_candidates(home: &str) -> (r: Vec<String>)
    ensures
        r@.len() == 2,
        r@[0]@ == home@ + "/.steam/steam"@,
        r@[1]@ == home@ + "/.local/share/Steam"@,
{
    let mut a = String::from_str(home);
    a.append("/.steam/steam");
    let mut b = String::from_str(home);
    b.append("/.local/share/Steam");
    let mut r: Vec<String> = Vec::new();
    r.push(a);
    r.push(b);
    r
}

/// Where Steam is installed on macOS.
pub fn macos_steam_root(home: &str) -> (r: String)
    ensures
        r@ == home@ + "/Library/Application Support/Steam"@,
{
    let mut r = String::from_str(home);
    r.append("/Library/Application Support/Steam");
    r
}

} // verus!
