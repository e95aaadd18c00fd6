//! The environment-variable overlay: variables whose names carry a fixed
//! prefix are turned into one nested document that takes precedence over
//! the file layers. The prefix is stripped, a double-underscore separator
//! splits the remaining name into a path of keys, and each key is folded to
//! lowercase.

use vstd::prelude::*;
use vstd::string::StrSliceExecFns;

use crate::document::Doc;
use crate::document::Value;
use crate::document::entries_view;
use crate::document::lemma_entries_view;
use crate::document::has_key;
use crate::document::merge;
use crate::document::merge_doc;
use crate::document::merged_base;
use crate::document::novel_entries;
use crate::error::ConfigError;
use crate::text::ascii_lowercase;
use crate::text::lower_char;
use crate::text::lower_seq;

verus! {

/// The segments of `s` split on the first double underscore, greedily from
/// the left; a string without the separator is one segment.
pub open spec fn split_segments(s: Seq<char>) -> Seq<Seq<char>>
    decreases s.len(),
{
    if s.len() < 2 {
        seq![s]
    } else if s[0] == '_' && s[1] == '_' {
        seq![Seq::<char>::empty()] + split_segments(s.skip(2))
    } else {
        let r = split_segments(s.skip(1));
        seq![seq![s[0]] + r[0]] + r.skip(1)
    }
}

/// When the first separator stands at `i`, the split is the head before it
/// followed by the split of the rest.
proof fn lemma_split_at_first_sep(s: Seq<char>, i: int)
    requires
        0 <= i,
        i + 1 < s.len(),
        forall|j: int| 0 <= j < i ==> !((#[trigger] s[j]) == '_' && s[j + 1] == '_'),
        s[i] == '_' && s[i + 1] == '_',
    ensures
        split_segments(s) == seq![s.take(i)] + split_segments(s.skip(i + 2)),
    decreases i,
{
    if i == 0 {
        assert(split_segments(s) == seq![Seq::<char>::empty()] + split_segments(s.skip(2)));
        assert(s.take(0) =~= Seq::<char>::empty());
    } else {
        assert(!(s[0] == '_' && s[1] == '_'));
        let r = split_segments(s.skip(1));
        assert(split_segments(s) == seq![seq![s[0]] + r[0]] + r.skip(1));
        assert(forall|j: int|
            0 <= j < i - 1 ==> !((#[trigger] s.skip(1)[j]) == '_' && s.skip(1)[j + 1] == '_'));
        assert(s.skip(1)[i - 1] == s[i] && s.skip(1)[i] == s[i + 1]);
        lemma_split_at_first_sep(s.skip(1), i - 1);
        let tail = split_segments(s.skip(1).skip(i + 1));
        assert(r == seq![s.skip(1).take(i - 1)] + tail);
        assert(r[0] == s.skip(1).take(i - 1));
        assert(r.skip(1) =~= tail);
        assert(seq![s[0]] + s.skip(1).take(i - 1) =~= s.take(i));
        assert(s.skip(1).skip(i + 1) =~= s.skip(i + 2));
        assert(seq![seq![s[0]] + r[0]] + r.skip(1) =~= seq![s.take(i)] + split_segments(
            s.skip(i + 2),
        ));
    }
}

/// A string without the separator is one single segment.
proof fn lemma_split_no_sep(s: Seq<char>)
    requires
        forall|j: int| 0 <= j < s.len() - 1 ==> !((#[trigger] s[j]) == '_' && s[j + 1] == '_'),
    ensures
        split_segments(s) == seq![s],
    decreases s.len(),
{
    if s.len() < 2 {
    } else {
        let r = split_segments(s.skip(1));
        assert(forall|j: int|
            0 <= j < s.skip(1).len() - 1 ==> !((#[trigger] s.skip(1)[j]) == '_' && s.skip(1)[j
            + 1] == '_'));
        lemma_split_no_sep(s.skip(1));
        assert(r == seq![s.skip(1)]);
        assert(r.skip(1) =~= Seq::<Seq<char>>::empty());
        assert(seq![s[0]] + s.skip(1) =~= s);
        assert(seq![seq![s[0]] + r[0]] + r.skip(1) =~= seq![s]);
    }
}

/// Whether every path segment is nonempty; an empty segment marks a
/// malformed variable name.
pub open spec fn segments_wf(segs: Seq<Seq<char>>) -> bool {
    forall|i: int| 0 <= i < segs.len() ==> (#[trigger] segs[i]).len() > 0
}

/// The rest of a variable name once the fixed prefix is stripped, or `None`
/// for a name that does not carry the prefix.
pub open spec fn strip_app_prefix(name: Seq<char>) -> Option<Seq<char>> {
    if name.len() >= 4 && name.take(4) == "APP_"@ {
        Some(name.skip(4))
    } else {
        None
    }
}

/// Each segment folded to lowercase.
pub open spec fn lowered(segs: Seq<Seq<char>>) -> Seq<Seq<char>> {
    segs.map_values(|g: Seq<char>| lower_seq(g))
}

/// The nested single-entry document that carries `v` at the end of `path`.
pub open spec fn path_doc(path: Seq<Seq<char>>, v: Doc) -> Doc
    decreases path.len(),
{
    if path.len() == 0 {
        v
    } else {
        Doc::Table(seq![(path[0], path_doc(path.drop_first(), v))])
    }
}

/// The overlay document of one variable: its value as a string, nested
/// under its lowercased path.
pub open spec fn var_overlay(rest: Seq<char>, val: Seq<char>) -> Doc {
    path_doc(lowered(split_segments(rest)), Doc::Str(val))
}

/// The overlay document of a whole variable listing: prefixed variables
/// are folded in, in order, each merged over the previous ones; a variable
/// with an empty path segment makes the overlay malformed.
pub open spec fn overlay_of(vars: Seq<(Seq<char>, Seq<char>)>) -> Option<Doc>
    decreases vars.len(),
{
    if vars.len() == 0 {
        Some(Doc::Table(Seq::empty()))
    } else {
        match overlay_of(vars.drop_last()) {
            None => None,
            Some(acc) => match strip_app_prefix(vars.last().0) {
                None => Some(acc),
                Some(rest) => if segments_wf(split_segments(rest)) {
                    Some(merge_doc(acc, var_overlay(rest, vars.last().1)))
                } else {
                    None
                },
            },
        }
    }
}

/// Once some prefix of the variables is malformed, the whole listing is.
proof fn lemma_overlay_none_persists(vars: Seq<(Seq<char>, Seq<char>)>, i: int)
    requires
        0 <= i <= vars.len(),
        overlay_of(vars.take(i)) is None,
    ensures
        overlay_of(vars) is None,
    decreases vars.len() - i,
{
    if i == vars.len() {
        assert(vars.take(i) =~= vars);
    } else {
        let t1 = vars.take(i + 1);
        assert(t1.drop_last() =~= vars.take(i));
        assert(overlay_of(t1) is None);
        lemma_overlay_none_persists(vars, i + 1);
    }
}

/// The views of a variable listing.
pub open spec fn pairs_view(vs: Seq<(String, String)>) -> Seq<(Seq<char>, Seq<char>)> {
    vs.map_values(|p: (String, String)| (p.0@, p.1@))
}

/// Law: the overlay variable `APP_POSTGRES__PASSWORD` builds exactly the
/// nested document that maps `postgres.password` to its value — the prefix
/// is stripped, the double underscore is read as the path separator, and
/// each key is folded to lowercase.
pub proof fn lemma_password_variable_overlay(pw: Seq<char>)
    ensures
        overlay_of(seq![("APP_POSTGRES__PASSWORD"@, pw)]) == Some(
            Doc::Table(seq![("postgres"@, Doc::Table(seq![("password"@, Doc::Str(pw))]))]),
        ),
{
    reveal_strlit("APP_POSTGRES__PASSWORD");
    reveal_strlit("APP_");
    reveal_strlit("postgres");
    reveal_strlit("password");
    vstd::utf8::char_u32_cast('p', 112);
    vstd::utf8::char_u32_cast('o', 111);
    vstd::utf8::char_u32_cast('s', 115);
    vstd::utf8::char_u32_cast('t', 116);
    vstd::utf8::char_u32_cast('g', 103);
    vstd::utf8::char_u32_cast('r', 114);
    vstd::utf8::char_u32_cast('e', 101);
    vstd::utf8::char_u32_cast('a', 97);
    vstd::utf8::char_u32_cast('w', 119);
    vstd::utf8::char_u32_cast('d', 100);
    assert(lower_char('P') == 'p');
    assert(lower_char('O') == 'o');
    assert(lower_char('S') == 's');
    assert(lower_char('T') == 't');
    assert(lower_char('G') == 'g');
    assert(lower_char('R') == 'r');
    assert(lower_char('E') == 'e');
    assert(lower_char('A') == 'a');
    assert(lower_char('W') == 'w');
    assert(lower_char('D') == 'd');
    let name = "APP_POSTGRES__PASSWORD"@;
    let vars = seq![(name, pw)];
    let empty_vars = Seq::<(Seq<char>, Seq<char>)>::empty();
    assert(vars.drop_last() =~= empty_vars);
    assert(overlay_of(empty_vars) == Some(Doc::Table(Seq::empty())));
    assert(vars.last() == (name, pw));
    assert(name.len() == 22);
    assert(name.take(4) =~= "APP_"@);
    let rest = name.skip(4);
    assert(strip_app_prefix(name) == Some(rest));
    assert(rest.len() == 18);
    assert(rest[8] == '_' && rest[9] == '_');
    assert forall|j: int| 0 <= j < 8 implies !((#[trigger] rest[j]) == '_' && rest[j + 1]
        == '_') by {
        if j == 0 {
            assert(rest[0] == 'P');
        } else if j == 1 {
            assert(rest[1] == 'O');
        } else if j == 2 {
            assert(rest[2] == 'S');
        } else if j == 3 {
            assert(rest[3] == 'T');
        } else if j == 4 {
            assert(rest[4] == 'G');
        } else if j == 5 {
            assert(rest[5] == 'R');
        } else if j == 6 {
            assert(rest[6] == 'E');
        } else {
            assert(rest[7] == 'S');
        }
    }
    lemma_split_at_first_sep(rest, 8);
    let head = rest.take(8);
    let tail = rest.skip(10);
    assert(tail.len() == 8);
    assert forall|j: int| 0 <= j < tail.len() - 1 implies !((#[trigger] tail[j]) == '_' && tail[j
        + 1] == '_') by {
        assert(tail[j] == rest[j + 10]);
        if j == 0 {
            assert(rest[10] == 'P');
        } else if j == 1 {
            assert(rest[11] == 'A');
        } else if j == 2 {
            assert(rest[12] == 'S');
        } else if j == 3 {
            assert(rest[13] == 'S');
        } else if j == 4 {
            assert(rest[14] == 'W');
        } else if j == 5 {
            assert(rest[15] == 'O');
        } else {
            assert(rest[16] == 'R');
        }
    }
    lemma_split_no_sep(tail);
    let segs = split_segments(rest);
    assert(segs == seq![head] + seq![tail]);
    assert(segs.len() == 2);
    assert(segs[0] == head);
    assert(segs[1] == tail);
    assert(segments_wf(segs)) by {
        assert(segs[0].len() == 8);
        assert(segs[1].len() == 8);
    }
    let path = lowered(segs);
    assert(path.len() == 2);
    assert(path[0] == lower_seq(head));
    assert(path[1] == lower_seq(tail));
    assert(lower_seq(head) =~= "postgres"@) by {
        assert forall|j: int| 0 <= j < 8 implies lower_char(head[j]) == "postgres"@[j] by {
            assert(head[j] == rest[j]);
            if j == 0 {
                assert(rest[0] == 'P');
            } else if j == 1 {
                assert(rest[1] == 'O');
            } else if j == 2 {
                assert(rest[2] == 'S');
            } else if j == 3 {
                assert(rest[3] == 'T');
            } else if j == 4 {
                assert(rest[4] == 'G');
            } else if j == 5 {
                assert(rest[5] == 'R');
            } else if j == 6 {
                assert(rest[6] == 'E');
            } else {
                assert(rest[7] == 'S');
            }
        }
    }
    assert(lower_seq(tail) =~= "password"@) by {
        assert forall|j: int| 0 <= j < 8 implies lower_char(tail[j]) == "password"@[j] by {
            assert(tail[j] == rest[j + 10]);
            if j == 0 {
                assert(rest[10] == 'P');
            } else if j == 1 {
                assert(rest[11] == 'A');
            } else if j == 2 {
                assert(rest[12] == 'S');
            } else if j == 3 {
                assert(rest[13] == 'S');
            } else if j == 4 {
                assert(rest[14] == 'W');
            } else if j == 5 {
                assert(rest[15] == 'O');
            } else if j == 6 {
                assert(rest[16] == 'R');
            } else {
                assert(rest[17] == 'D');
            }
        }
    }
    assert(path =~= seq!["postgres"@, "password"@]);
    let val = Doc::Str(pw);
    let inner = Doc::Table(seq![("password"@, val)]);
    assert(path.drop_first() =~= seq!["password"@]);
    assert(seq!["password"@].drop_first() =~= Seq::<Seq<char>>::empty());
    assert(path_doc(Seq::<Seq<char>>::empty(), val) == val);
    assert(path_doc(seq!["password"@], val) == inner);
    let ovl = Doc::Table(seq![("postgres"@, inner)]);
    assert(path_doc(path, val) == ovl);
    assert(var_overlay(rest, pw) == ovl);
    let acc_entries = Seq::<(Seq<char>, Doc)>::empty();
    let ot = seq![("postgres"@, inner)];
    assert(merged_base(acc_entries, ot) == Seq::<(Seq<char>, Doc)>::empty());
    assert(!has_key(acc_entries, ot[0].0));
    assert(ot.drop_first() =~= Seq::<(Seq<char>, Doc)>::empty());
    assert(novel_entries(Seq::<(Seq<char>, Doc)>::empty(), acc_entries) == Seq::<(
        Seq<char>,
        Doc,
    )>::empty());
    assert(novel_entries(ot, acc_entries) =~= ot);
    assert(merged_base(acc_entries, ot) + novel_entries(ot, acc_entries) =~= ot);
    assert(merge_doc(Doc::Table(Seq::empty()), ovl) == ovl);
    assert(overlay_of(vars) == Some(ovl));
}

/// Splits a name on double underscores.
#[verifier::loop_isolation(false)]
fn split_exec(s: &str) -> (r: Vec<String>)
    ensures
        r@.len() == split_segments(s@).len(),
        forall|i: int| 0 <= i < r@.len() ==> r@[i]@ == split_segments(s@)[i],
    decreases s@.len(),
{
    let n = s.unicode_len();
    let mut i: usize = 0;
    while i + 1 < n && !(s.get_char(i) == '_' && s.get_char(i + 1) == '_')
        invariant
            0 <= i <= n,
            i + 1 <= n || i == 0,
            forall|j: int| 0 <= j < i ==> !((#[trigger] s@[j]) == '_' && s@[j + 1] == '_'),
        decreases n - i,
    {
        i += 1;
    }
    if i + 1 < n {
        proof {
            lemma_split_at_first_sep(s@, i as int);
        }
        let head = s.substring_char(0, i);
        let tail = s.substring_char(i + 2, n);
        proof {
            assert(head@ =~= s@.take(i as int));
            assert(tail@ =~= s@.skip(i + 2));
        }
        let mut rest = split_exec(tail);
        let mut out: Vec<String> = Vec::new();
        out.push(head.to_owned());
        let ghost restv = rest@;
        while rest.len() > 0
            invariant
                1 <= out@.len() <= restv.len() + 1,
                out@.len() - 1 + rest@.len() == restv.len(),
                rest@ == restv.skip(out@.len() - 1),
                out@[0]@ == s@.take(i as int),
                forall|q: int| 0 <= q < out@.len() - 1 ==> out@[q + 1] == restv[q],
            decreases rest@.len(),
        {
            proof {
                let k = out@.len() - 1;
                assert(restv.skip(k)[0] == restv[k]);
                assert(restv.skip(k).skip(1) =~= restv.skip(k + 1));
            }
            let item = rest.remove(0);
            proof {
                assert(rest@ =~= restv.skip(out@.len() - 1).skip(1));
            }
            out.push(item);
        }
        proof {
            assert(out@.len() == restv.len() + 1);
            assert forall|q: int| 0 <= q < out@.len() implies out@[q]@ == split_segments(s@)[q] by {
                if q > 0 {
                    assert(out@[q] == restv[q - 1]);
                    assert((seq![s@.take(i as int)] + split_segments(s@.skip(i + 2)))[q]
                        == split_segments(s@.skip(i + 2))[q - 1]);
                }
            }
        }
        out
    } else {
        proof {
            assert(forall|j: int|
                0 <= j < s@.len() - 1 ==> !((#[trigger] s@[j]) == '_' && s@[j + 1] == '_'));
            lemma_split_no_sep(s@);
        }
        let mut out: Vec<String> = Vec::new();
        out.push(s.to_owned());
        out
    }
}

/// Builds the overlay document from a listing of the process environment
/// variables, or rejects the listing when a prefixed name has an empty
/// path segment.
#[verifier::loop_isolation(false)]
pub fn overlay_from_env(vars: &Vec<(String, String)>) -> (r: Result<Value, ConfigError>)
    ensures
        match r {
            Ok(v) => overlay_of(pairs_view(vars@)) == Some(v@),
            Err(e) => overlay_of(pairs_view(vars@)) is None && e is EnvOverlayParse,
        },
{
    let ghost pv = pairs_view(vars@);
    let mut acc = Value::Table(Vec::new());
    proof {
        assert(entries_view(Seq::<(String, Value)>::empty()) == Seq::<(Seq<char>, Doc)>::empty());
        assert(pv.take(0) =~= Seq::<(Seq<char>, Seq<char>)>::empty());
    }
    let mut i: usize = 0;
    while i < vars.len()
        invariant
            0 <= i <= vars.len(),
            pv.len() == vars@.len(),
            overlay_of(pv.take(i as int)) == Some(acc@),
        decreases vars.len() - i,
    {
        proof {
            assert(pv[i as int] == (vars@[i as int].0@, vars@[i as int].1@));
            let t1 = pv.take(i + 1 as int);
            assert(t1.drop_last() =~= pv.take(i as int));
            assert(t1.last() == pv[i as int]);
        }
        let name = &vars[i].0;
        let n = name.unicode_len();
        let prefixed = n >= 4 && name.as_str().get_char(0) == 'A' && name.as_str().get_char(1)
            == 'P' && name.as_str().get_char(2) == 'P' && name.as_str().get_char(3) == '_';
        proof {
            reveal_strlit("APP_");
            if prefixed {
                assert(name@.take(4) =~= "APP_"@);
            } else if n >= 4 {
                assert(name@.take(4)[0] == name@[0] && name@.take(4)[1] == name@[1] && name@.take(
                    4,
                )[2] == name@[2] && name@.take(4)[3] == name@[3]);
                assert(name@.take(4) != "APP_"@);
            }
            assert(prefixed <==> strip_app_prefix(name@) is Some);
        }
        if prefixed {
            let rest = name.as_str().substring_char(4, n);
            proof {
                assert(rest@ =~= name@.skip(4));
            }
            let segs = split_exec(rest);
            let ghost segsv = split_segments(rest@);
            let mut j: usize = 0;
            while j < segs.len()
                invariant
                    0 <= j <= segs.len(),
                    segs@.len() == segsv.len(),
                    forall|q: int| 0 <= q < segs@.len() ==> segs@[q]@ == segsv[q],
                    forall|q: int| 0 <= q < j ==> (#[trigger] segsv[q]).len() > 0,
                decreases segs.len() - j,
            {
                if segs[j].unicode_len() == 0 {
                    proof {
                        assert(segsv[j as int].len() == 0);
                        assert(!segments_wf(segsv));
                        assert(overlay_of(pv.take(i + 1 as int)) is None);
                        lemma_overlay_none_persists(pv, i + 1);
                        assert(pv.take(pv.len() as int) =~= pv);
                    }
                    return Err(ConfigError::EnvOverlayParse(name.clone()));
                }
                j += 1;
            }
            proof {
                assert(segments_wf(segsv));
            }
            let val = vars[i].1.clone();
            let mut node = Value::Str(val);
            let ghost low = lowered(segsv);
            proof {
                assert(low.len() == segsv.len());
                assert(low.skip(segs@.len() as int) =~= Seq::<Seq<char>>::empty());
            }
            let mut j2: usize = segs.len();
            while j2 > 0
                invariant
                    0 <= j2 <= segs@.len(),
                    segs@.len() == segsv.len(),
                    forall|q: int| 0 <= q < segs@.len() ==> segs@[q]@ == segsv[q],
                    low == lowered(segsv),
                    low.len() == segsv.len(),
                    node@ == path_doc(low.skip(j2 as int), Doc::Str(vars@[i as int].1@)),
                decreases j2,
            {
                j2 -= 1;
                let key = ascii_lowercase(segs[j2].as_str());
                proof {
                    assert(low[j2 as int] == lower_seq(segsv[j2 as int]));
                    assert(key@ == low[j2 as int]);
                }
                let ghost before = node@;
                let mut entries: Vec<(String, Value)> = Vec::new();
                entries.push((key, node));
                proof {
                    assert(entries@.len() == 1);
                    lemma_entries_view(entries@);
                    assert(entries_view(entries@) =~= seq![(entries@[0].0@, entries@[0].1@)]);
                }
                node = Value::Table(entries);
                proof {
                    assert(node@ == Doc::Table(seq![(low[j2 as int], before)]));
                    assert(low.skip(j2 as int)[0] == low[j2 as int]);
                    assert(low.skip(j2 as int).drop_first() =~= low.skip(j2 + 1 as int));
                }
            }
            proof {
                assert(low.skip(0) =~= low);
                assert(node@ == var_overlay(rest@, vars@[i as int].1@));
            }
            let merged = merge(&acc, &node);
            acc = merged;
        }
        i += 1;
    }
    proof {
        assert(pv.take(pv.len() as int) =~= pv);
    }
    Ok(acc)
}

} // verus!
