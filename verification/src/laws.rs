//! Laws of the structural state machine and of the text encoding, stated
//! over the same specification functions that the emitter's contracts use.

use vstd::prelude::*;
use crate::ascii::{end_node_text, parent_brace_text, stack_after_start, start_node_text};
use crate::property::{props_text, Property};
use crate::text::{escape_char, escape_text, ind_text};

verus! {

/// One structural event of a document: a node start (carrying whether the
/// node has properties) or a node end.
pub enum NodeEvent {
    /// A node starts; the payload records whether its property list is
    /// non-empty.
    Start(bool),
    /// The innermost open node ends.
    End,
}

/// One event applied to the node stack, exactly as `emit_start_node` and
/// `emit_end_node` transform it; `None` is the failed end with no open node.
pub open spec fn apply_event(st: Seq<(bool, bool)>, ev: NodeEvent) -> Option<Seq<(bool, bool)>> {
    match ev {
        NodeEvent::Start(has_props) => Some(stack_after_start(st, has_props)),
        NodeEvent::End => if st.len() == 0 {
            None
        } else {
            Some(st.drop_last())
        },
    }
}

/// A whole event sequence applied to the node stack.
pub open spec fn run_events(st: Seq<(bool, bool)>, evs: Seq<NodeEvent>) -> Option<
    Seq<(bool, bool)>,
>
    decreases evs.len(),
{
    if evs.len() == 0 {
        Some(st)
    } else {
        match apply_event(st, evs[0]) {
            None => None,
            Some(st2) => run_events(st2, evs.drop_first()),
        }
    }
}

/// How many events of the sequence are node starts.
pub open spec fn count_starts(evs: Seq<NodeEvent>) -> int
    decreases evs.len(),
{
    if evs.len() == 0 {
        0
    } else {
        (if evs[0] is Start {
            1int
        } else {
            0int
        }) + count_starts(evs.drop_first())
    }
}

/// How many events of the sequence are node ends.
pub open spec fn count_ends(evs: Seq<NodeEvent>) -> int
    decreases evs.len(),
{
    if evs.len() == 0 {
        0
    } else {
        (if evs[0] is End {
            1int
        } else {
            0int
        }) + count_ends(evs.drop_first())
    }
}

/// Counting over a prefix, one event at a time.
proof fn lemma_count_take_step(evs: Seq<NodeEvent>, i: int)
    requires
        1 <= i <= evs.len(),
    ensures
        count_starts(evs.take(i)) == (if evs[0] is Start {
            1int
        } else {
            0int
        }) + count_starts(evs.drop_first().take(i - 1)),
        count_ends(evs.take(i)) == (if evs[0] is End {
            1int
        } else {
            0int
        }) + count_ends(evs.drop_first().take(i - 1)),
{
    assert(evs.take(i)[0] == evs[0]);
    assert(evs.take(i).drop_first() =~= evs.drop_first().take(i - 1));
}

/// Law: every start pushes exactly one record and every end pops exactly
/// one, so a run that does not fail leaves the depth shifted by the number
/// of starts minus the number of ends.
pub proof fn lemma_run_depth(st: Seq<(bool, bool)>, evs: Seq<NodeEvent>)
    requires
        run_events(st, evs) is Some,
    ensures
        run_events(st, evs) matches Some(st2) ==> st2.len() + count_ends(evs) == st.len()
            + count_starts(evs),
    decreases evs.len(),
{
    if evs.len() == 0 {
    } else {
        match evs[0] {
            NodeEvent::Start(p) => {
                lemma_run_depth(stack_after_start(st, p), evs.drop_first());
            },
            NodeEvent::End => {
                assert(st.len() > 0);
                lemma_run_depth(st.drop_last(), evs.drop_first());
            },
        }
    }
}

/// Law: a run fails exactly when some prefix holds more ends than the stack
/// and its starts can cover; in particular an end at depth zero fails.
pub proof fn lemma_run_some_iff_prefixes_bounded(st: Seq<(bool, bool)>, evs: Seq<NodeEvent>)
    ensures
        run_events(st, evs) is Some <==> (forall|i: int|
            0 <= i <= evs.len() ==> count_ends(#[trigger] evs.take(i)) <= st.len() as int
                + count_starts(evs.take(i))),
    decreases evs.len(),
{
    if evs.len() == 0 {
        assert forall|i: int| 0 <= i <= evs.len() implies count_ends(#[trigger] evs.take(i))
            <= st.len() as int + count_starts(evs.take(i)) by {
            assert(evs.take(i) =~= Seq::<NodeEvent>::empty());
        }
    } else {
        let rest = evs.drop_first();
        match evs[0] {
            NodeEvent::Start(p) => {
                let st2 = stack_after_start(st, p);
                lemma_run_some_iff_prefixes_bounded(st2, rest);
                assert(st2.len() == st.len() + 1);
                if run_events(st, evs) is Some {
                    assert forall|i: int| 0 <= i <= evs.len() implies count_ends(
                        #[trigger] evs.take(i),
                    ) <= st.len() as int + count_starts(evs.take(i)) by {
                        if i == 0 {
                            assert(evs.take(0) =~= Seq::<NodeEvent>::empty());
                        } else {
                            lemma_count_take_step(evs, i);
                            assert(count_ends(rest.take(i - 1)) <= st2.len() as int + count_starts(
                                rest.take(i - 1),
                            ));
                        }
                    }
                } else {
                    let j = choose|j: int|
                        0 <= j <= rest.len() && !(count_ends(#[trigger] rest.take(j)) <= st2.len() as int
                            + count_starts(rest.take(j)));
                    lemma_count_take_step(evs, j + 1);
                    assert(!(count_ends(evs.take(j + 1)) <= st.len() as int + count_starts(
                        evs.take(j + 1),
                    )));
                }
            },
            NodeEvent::End => {
                if st.len() == 0 {
                    lemma_count_take_step(evs, 1);
                    assert(rest.take(0) =~= Seq::<NodeEvent>::empty());
                    assert(count_ends(rest.take(0)) == 0);
                    assert(count_starts(rest.take(0)) == 0);
                    assert(count_ends(evs.take(1)) == 1);
                    assert(count_starts(evs.take(1)) == 0);
                    assert(!(count_ends(evs.take(1)) <= st.len() as int + count_starts(
                        evs.take(1),
                    )));
                } else {
                    let st2 = st.drop_last();
                    lemma_run_some_iff_prefixes_bounded(st2, rest);
                    assert(st2.len() == st.len() - 1);
                    if run_events(st, evs) is Some {
                        assert forall|i: int| 0 <= i <= evs.len() implies count_ends(
                            #[trigger] evs.take(i),
                        ) <= st.len() as int + count_starts(evs.take(i)) by {
                            if i == 0 {
                                assert(evs.take(0) =~= Seq::<NodeEvent>::empty());
                            } else {
                                lemma_count_take_step(evs, i);
                                assert(count_ends(rest.take(i - 1)) <= st2.len() as int
                                    + count_starts(rest.take(i - 1)));
                            }
                        }
                    } else {
                        let j = choose|j: int|
                            0 <= j <= rest.len() && !(count_ends(#[trigger] rest.take(j))
                                <= st2.len() as int + count_starts(rest.take(j)));
                        lemma_count_take_step(evs, j + 1);
                        assert(!(count_ends(evs.take(j + 1)) <= st.len() as int + count_starts(
                            evs.take(j + 1),
                        )));
                    }
                }
            },
        }
    }
}

/// Law: a document's stack depth returns to zero exactly when the run holds
/// as many ends as starts.
pub proof fn lemma_depth_zero_iff_balanced(evs: Seq<NodeEvent>)
    requires
        run_events(Seq::<(bool, bool)>::empty(), evs) is Some,
    ensures
        run_events(Seq::<(bool, bool)>::empty(), evs) matches Some(st) ==> (st.len() == 0
            <==> count_starts(evs) == count_ends(evs)),
{
    lemma_run_depth(Seq::<(bool, bool)>::empty(), evs);
}

/// Law: a node closed immediately after it was opened renders as empty
/// braces when its property list is empty, and as a single properties line
/// with no node braces when it is not.
pub proof fn lemma_childless_node_text(st: Seq<(bool, bool)>, name: Seq<char>, props: Seq<Property>)
    ensures
        props.len() == 0 ==> start_node_text(st, name, props) + end_node_text(
            stack_after_start(st, false).last(),
            st.len(),
        ) == parent_brace_text(st) + ind_text(st.len()) + name + ": "@ + " {\n"@ + ind_text(
            st.len(),
        ) + "}\n"@,
        props.len() > 0 ==> start_node_text(st, name, props) + end_node_text(
            stack_after_start(st, true).last(),
            st.len(),
        ) == parent_brace_text(st) + ind_text(st.len()) + name + ": "@ + props_text(
            props,
            (st.len() + 1) as nat,
        ) + "\n"@,
{
    if props.len() == 0 {
        assert(stack_after_start(st, false).last() == (false, false));
        assert(props.map_values(|p: Property| crate::property::prop_text(p, (st.len() + 1) as nat))
            =~= Seq::<Seq<char>>::empty());
        assert(props_text(props, (st.len() + 1) as nat) == Seq::<char>::empty());
        assert(start_node_text(st, name, props) + end_node_text(
            stack_after_start(st, false).last(),
            st.len(),
        ) =~= parent_brace_text(st) + ind_text(st.len()) + name + ": "@ + " {\n"@ + ind_text(
            st.len(),
        ) + "}\n"@);
    } else {
        assert(stack_after_start(st, true).last() == (true, false));
        assert(end_node_text((true, false), st.len()) == "\n"@);
        assert(start_node_text(st, name, props) + end_node_text(
            stack_after_start(st, true).last(),
            st.len(),
        ) =~= parent_brace_text(st) + ind_text(st.len()) + name + ": "@ + props_text(
            props,
            (st.len() + 1) as nat,
        ) + "\n"@);
    }
}

/// Law: a node's opening brace is written exactly once, at the moment its
/// first child starts; later children write no brace, the parent's record is
/// marked, and closing a node that emitted a child writes only the closing
/// brace.
pub proof fn lemma_brace_at_first_child(st: Seq<(bool, bool)>, name: Seq<char>, props: Seq<Property>)
    requires
        st.len() > 0,
    ensures
        !st.last().1 ==> parent_brace_text(st) == " {\n"@,
        st.last().1 ==> parent_brace_text(st) == Seq::<char>::empty(),
        stack_after_start(st, props.len() > 0)[st.len() - 1].1,
        end_node_text((st.last().0, true), (st.len() - 1) as nat) == ind_text(
            (st.len() - 1) as nat,
        ) + "}\n"@,
{
}

/// `p` stands at the front of `s`.
pub open spec fn starts_with(s: Seq<char>, p: Seq<char>) -> bool {
    p.len() <= s.len() && (forall|i: int| 0 <= i < p.len() ==> s[i] == p[i])
}

/// `pat` occurs in `s` at position `i`.
pub open spec fn occurs_at(s: Seq<char>, pat: Seq<char>, i: int) -> bool {
    0 <= i && i + pat.len() <= s.len() && (forall|k: int| 0 <= k < pat.len() ==> s[i + k] == pat[k])
}

/// `pat` occurs somewhere in `s`.
pub open spec fn contains_seq(s: Seq<char>, pat: Seq<char>) -> bool {
    exists|i: int| occurs_at(s, pat, i)
}

/// `s` already holds one of the three literal escape sequences; on exactly
/// these inputs the escaping is ambiguous.
pub open spec fn has_escape_literal(s: Seq<char>) -> bool {
    contains_seq(s, "&quot;"@) || contains_seq(s, "&lf;"@) || contains_seq(s, "&cr;"@)
}

/// The inverse reading of escaped text: each literal escape sequence is
/// collapsed to the character it stands for; everything else passes through.
pub open spec fn unescape_text(s: Seq<char>) -> Seq<char>
    decreases s.len(),
{
    if s.len() == 0 {
        Seq::<char>::empty()
    } else if s.len() >= 6 && starts_with(s, "&quot;"@) {
        seq!['"'] + unescape_text(s.skip(6))
    } else if s.len() >= 4 && starts_with(s, "&lf;"@) {
        seq!['\n'] + unescape_text(s.skip(4))
    } else if s.len() >= 4 && starts_with(s, "&cr;"@) {
        seq!['\r'] + unescape_text(s.skip(4))
    } else {
        seq![s[0]] + unescape_text(s.drop_first())
    }
}

/// If escaped text starts with characters that escaping leaves alone, the
/// source text starts with them too.
proof fn lemma_plain_prefix(t: Seq<char>, p: Seq<char>)
    requires
        p.len() >= 1,
        starts_with(escape_text(t), p),
        forall|i: int| 0 <= i < p.len() ==> p[i] != '&',
    ensures
        starts_with(t, p),
    decreases p.len(),
{
    reveal_strlit("&quot;");
    reveal_strlit("&lf;");
    reveal_strlit("&cr;");
    assert(escape_text(t).len() >= 1);
    assert(t.len() >= 1);
    let e = escape_text(t);
    assert(e == escape_char(t[0]) + escape_text(t.drop_first()));
    if t[0] == '"' || t[0] == '\n' || t[0] == '\r' {
        assert(escape_char(t[0])[0] == '&');
        assert(e[0] == '&');
        assert(p[0] == '&');
        assert(false);
    } else {
        assert(escape_char(t[0]) == seq![t[0]]);
        assert(e[0] == t[0]);
        assert(t[0] == p[0]);
        if p.len() > 1 {
            assert forall|i: int| 0 <= i < p.len() - 1 implies escape_text(t.drop_first())[i]
                == p.drop_first()[i] by {
                assert(e[i + 1] == escape_text(t.drop_first())[i]);
                assert(e[i + 1] == p[i + 1]);
            }
            assert(starts_with(escape_text(t.drop_first()), p.drop_first()));
            lemma_plain_prefix(t.drop_first(), p.drop_first());
            assert forall|i: int| 0 <= i < p.len() implies t[i] == p[i] by {
                if i > 0 {
                    assert(t.drop_first()[i - 1] == p.drop_first()[i - 1]);
                }
            }
        }
    }
}

/// A literal escape sequence absent from a string is absent from its tail.
proof fn lemma_no_literal_in_tail(s: Seq<char>)
    requires
        s.len() > 0,
        !has_escape_literal(s),
    ensures
        !has_escape_literal(s.drop_first()),
{
    let t = s.drop_first();
    if contains_seq(t, "&quot;"@) {
        let i = choose|i: int| occurs_at(t, "&quot;"@, i);
        assert(occurs_at(s, "&quot;"@, i + 1));
    }
    if contains_seq(t, "&lf;"@) {
        let i = choose|i: int| occurs_at(t, "&lf;"@, i);
        assert(occurs_at(s, "&lf;"@, i + 1));
    }
    if contains_seq(t, "&cr;"@) {
        let i = choose|i: int| occurs_at(t, "&cr;"@, i);
        assert(occurs_at(s, "&cr;"@, i + 1));
    }
}

/// When the head of `s` is `&`, escaped text cannot begin with a literal
/// escape sequence unless `s` itself held one.
proof fn lemma_amp_head_no_token(s: Seq<char>)
    requires
        s.len() > 0,
        s[0] == '&',
        !has_escape_literal(s),
    ensures
        !(escape_text(s).len() >= 6 && starts_with(escape_text(s), "&quot;"@)),
        !(escape_text(s).len() >= 4 && starts_with(escape_text(s), "&lf;"@)),
        !(escape_text(s).len() >= 4 && starts_with(escape_text(s), "&cr;"@)),
{
    reveal_strlit("&quot;");
    reveal_strlit("&lf;");
    reveal_strlit("&cr;");
    reveal_strlit("quot;");
    reveal_strlit("lf;");
    reveal_strlit("cr;");
    let rest = s.drop_first();
    let e = escape_text(s);
    assert(escape_char(s[0]) == seq![s[0]]);
    assert(e == seq![s[0]] + escape_text(rest));
    if e.len() >= 6 && starts_with(e, "&quot;"@) {
        assert forall|i: int| 0 <= i < 5 implies escape_text(rest)[i] == "quot;"@[i] by {
            assert(e[i + 1] == escape_text(rest)[i]);
            assert("&quot;"@[i + 1] == "quot;"@[i]);
        }
        assert(starts_with(escape_text(rest), "quot;"@));
        lemma_plain_prefix(rest, "quot;"@);
        assert(occurs_at(s, "&quot;"@, 0)) by {
            assert forall|k: int| 0 <= k < 6 implies s[k] == "&quot;"@[k] by {
                if k > 0 {
                    assert(rest[k - 1] == "quot;"@[k - 1]);
                }
            }
        }
        assert(false);
    }
    if e.len() >= 4 && starts_with(e, "&lf;"@) {
        assert forall|i: int| 0 <= i < 3 implies escape_text(rest)[i] == "lf;"@[i] by {
            assert(e[i + 1] == escape_text(rest)[i]);
            assert("&lf;"@[i + 1] == "lf;"@[i]);
        }
        assert(starts_with(escape_text(rest), "lf;"@));
        lemma_plain_prefix(rest, "lf;"@);
        assert(occurs_at(s, "&lf;"@, 0)) by {
            assert forall|k: int| 0 <= k < 4 implies s[k] == "&lf;"@[k] by {
                if k > 0 {
                    assert(rest[k - 1] == "lf;"@[k - 1]);
                }
            }
        }
        assert(false);
    }
    if e.len() >= 4 && starts_with(e, "&cr;"@) {
        assert forall|i: int| 0 <= i < 3 implies escape_text(rest)[i] == "cr;"@[i] by {
            assert(e[i + 1] == escape_text(rest)[i]);
            assert("&cr;"@[i + 1] == "cr;"@[i]);
        }
        assert(starts_with(escape_text(rest), "cr;"@));
        lemma_plain_prefix(rest, "cr;"@);
        assert(occurs_at(s, "&cr;"@, 0)) by {
            assert forall|k: int| 0 <= k < 4 implies s[k] == "&cr;"@[k] by {
                if k > 0 {
                    assert(rest[k - 1] == "cr;"@[k - 1]);
                }
            }
        }
        assert(false);
    }
}

/// Law: escaping is total and unambiguous on every input that does not
/// already hold a literal escape sequence: reading the escaped text back
/// recovers the input exactly, with all other characters unaltered.
pub proof fn lemma_escape_round_trip(s: Seq<char>)
    requires
        !has_escape_literal(s),
    ensures
        unescape_text(escape_text(s)) == s,
    decreases s.len(),
{
    reveal_strlit("&quot;");
    reveal_strlit("&lf;");
    reveal_strlit("&cr;");
    if s.len() == 0 {
        assert(escape_text(s) =~= Seq::<char>::empty());
        assert(unescape_text(escape_text(s)) =~= s);
    } else {
        let rest = s.drop_first();
        let e = escape_text(s);
        assert(e == escape_char(s[0]) + escape_text(rest));
        lemma_no_literal_in_tail(s);
        lemma_escape_round_trip(rest);
        if s[0] == '"' {
            assert(e.len() >= 6);
            assert(starts_with(e, "&quot;"@));
            assert(e.skip(6) =~= escape_text(rest));
            assert(unescape_text(e) == seq!['"'] + unescape_text(escape_text(rest)));
            assert(seq!['"'] + rest =~= s);
        } else if s[0] == '\n' {
            assert(e.len() >= 4);
            assert(e[1] == 'l');
            assert(!starts_with(e, "&quot;"@));
            assert(starts_with(e, "&lf;"@));
            assert(e.skip(4) =~= escape_text(rest));
            assert(unescape_text(e) == seq!['\n'] + unescape_text(escape_text(rest)));
            assert(seq!['\n'] + rest =~= s);
        } else if s[0] == '\r' {
            assert(e.len() >= 4);
            assert(e[1] == 'c');
            assert(!starts_with(e, "&quot;"@));
            assert(!starts_with(e, "&lf;"@));
            assert(starts_with(e, "&cr;"@));
            assert(e.skip(4) =~= escape_text(rest));
            assert(unescape_text(e) == seq!['\r'] + unescape_text(escape_text(rest)));
            assert(seq!['\r'] + rest =~= s);
        } else {
            assert(escape_char(s[0]) == seq![s[0]]);
            assert(e[0] == s[0]);
            if s[0] == '&' {
                lemma_amp_head_no_token(s);
            } else {
                assert(!(e.len() >= 6 && starts_with(e, "&quot;"@)));
                assert(!(e.len() >= 4 && starts_with(e, "&lf;"@)));
                assert(!(e.len() >= 4 && starts_with(e, "&cr;"@)));
            }
            assert(e.drop_first() =~= escape_text(rest));
            assert(unescape_text(e) == seq![s[0]] + unescape_text(escape_text(rest)));
            assert(seq![s[0]] + rest =~= s);
        }
    }
}

} // verus!
