//! The ASCII FBX emitter: a streaming writer that decides braces and
//! indentation event by event.
//!
//! A node's opening brace can only be placed once its first child starts, so
//! the emitter keeps a stack with one record per open node: whether that node
//! was opened with properties, and whether it has already emitted a child.

use vstd::prelude::*;
use vstd::string::StrSliceExecFns;
use vstd::string::StringExecFns;
use crate::error::{Error, ErrorKind};
use crate::property::{props_text, Property};
use crate::text::{
    comment_text,
    dec_nat,
    first_nl,
    ind_text,
    push_chars,
    push_ind,
    push_u64_dec,
    str_chars,
};
use crate::version_supported;

verus! {

/// The stack after opening a node: the parent (if any) is marked as having
/// emitted a child, and a fresh record is pushed for the new node.
pub open spec fn stack_after_start(st: Seq<(bool, bool)>, has_props: bool) -> Seq<(bool, bool)> {
    let marked = if st.len() > 0 {
        st.update(st.len() - 1, (st.last().0, true))
    } else {
        st
    };
    marked.push((has_props, false))
}

/// The parent's deferred opening brace, written exactly when a node starts
/// under a parent that has not yet emitted a child.
pub open spec fn parent_brace_text(st: Seq<(bool, bool)>) -> Seq<char> {
    if st.len() > 0 && !st.last().1 {
        " {\n"@
    } else {
        Seq::<char>::empty()
    }
}

/// The text written when a node starts: the parent's deferred opening brace
/// if this is its first child, then indentation, the name, `: `, and the
/// property list one level deeper.
pub open spec fn start_node_text(st: Seq<(bool, bool)>, name: Seq<char>, props: Seq<Property>) -> Seq<
    char,
> {
    parent_brace_text(st) + ind_text(st.len()) + name + ": "@ + props_text(
        props,
        (st.len() + 1) as nat,
    )
}

/// The text written when the node with record `frame` ends, `rest_depth`
/// nodes remaining open: empty braces for a node with neither properties nor
/// children, only a closing brace when a child was emitted, and a bare line
/// break for a childless node with properties.
pub open spec fn end_node_text(frame: (bool, bool), rest_depth: nat) -> Seq<char> {
    if !frame.0 && !frame.1 {
        " {\n"@ + ind_text(rest_depth) + "}\n"@
    } else if frame.1 {
        ind_text(rest_depth) + "}\n"@
    } else {
        "\n"@
    }
}

/// The document header: the version split into major, minor and revision.
pub open spec fn header_text(ver: u32) -> Seq<char> {
    "; FBX "@ + dec_nat((ver / 1000) as nat) + seq!['.'] + dec_nat(((ver % 1000) / 100) as nat)
        + seq!['.'] + dec_nat((ver % 100) as nat) + " project file\n"@
}

/// A writer for ASCII FBX.
#[derive(Debug, Clone)]
pub struct AsciiEmitter {
    prop_child_existence: Vec<(bool, bool)>,
}

impl AsciiEmitter {
    /// One record per open node: (has properties, has emitted a child).
    pub closed spec fn stack(self) -> Seq<(bool, bool)> {
        self.prop_child_existence@
    }

    /// The number of currently open nodes.
    pub open spec fn depth(self) -> nat {
        self.stack().len()
    }

    /// Constructs an ASCII FBX writer with no open node.
    pub fn new() -> (r: Self)
        ensures
            r.stack() == Seq::<(bool, bool)>::empty(),
    {
        AsciiEmitter { prop_child_existence: Vec::new() }
    }

    /// Validates the version and writes the document header.
    ///
    /// Versions outside the supported window are rejected before anything is
    /// written.
    pub fn emit_start_fbx(&mut self, sink: &mut String, ver: u32) -> (r: Result<(), Error>)
        ensures
            final(self).stack() == old(self).stack(),
            !version_supported(ver) ==> {
                &&& r matches Err(e)
                &&& e.spec_pos() == 0
                &&& e.spec_kind() matches ErrorKind::UnsupportedFbxVersion(v)
                &&& v == ver
                &&& final(sink)@ == old(sink)@
            },
            version_supported(ver) ==> r is Ok && final(sink)@ == old(sink)@ + header_text(ver),
    {
        if ver < 7000 || ver >= 8000 {
            return Err(Error::new(0, ErrorKind::UnsupportedFbxVersion(ver)));
        }
        sink.append("; FBX ");
        push_u64_dec(sink, (ver / 1000) as u64);
        sink.append(".");
        push_u64_dec(sink, ((ver % 1000) / 100) as u64);
        sink.append(".");
        push_u64_dec(sink, (ver % 100) as u64);
        sink.append(" project file\n");
        proof {
            reveal_strlit(".");
            assert("."@ =~= seq!['.']);
            assert(sink@ =~= old(sink)@ + header_text(ver));
        }
        Ok(())
    }

    /// Ends the document.  The text backend keeps no deferred state, so this
    /// writes nothing.
    pub fn emit_end_fbx(&mut self, sink: &mut String) -> (r: Result<(), Error>)
        ensures
            r is Ok,
            final(self).stack() == old(self).stack(),
            final(sink)@ == old(sink)@,
    {
        let _ = sink;
        Ok(())
    }

    /// Opens a node: writes the parent's deferred brace if this is its first
    /// child, the indentation, the name, and the property list.
    ///
    /// An empty name is a caller-contract violation, rejected before
    /// anything is written.
    pub fn emit_start_node(&mut self, sink: &mut String, name: &str, properties: &[Property]) -> (r:
        Result<(), Error>)
        ensures
            name@.len() == 0 ==> {
                &&& r matches Err(e)
                &&& e.spec_pos() == 0
                &&& e.spec_kind() matches ErrorKind::DataError(m)
                &&& m@ == "node name must not be empty"@
                &&& final(self).stack() == old(self).stack()
                &&& final(sink)@ == old(sink)@
            },
            name@.len() > 0 ==> {
                &&& r is Ok
                &&& final(self).stack() == stack_after_start(
                    old(self).stack(),
                    properties@.len() > 0,
                )
                &&& final(sink)@ == old(sink)@ + start_node_text(
                    old(self).stack(),
                    name@,
                    properties@,
                )
            },
    {
        if name.unicode_len() == 0 {
            return Err(
                Error::new(0, ErrorKind::DataError(String::from_str("node name must not be empty"))),
            );
        }
        match self.prop_child_existence.pop() {
            Some(top) => {
                if !top.1 {
                    sink.append(" {\n");
                }
                self.prop_child_existence.push((top.0, true));
                proof {
                    assert(self.prop_child_existence@ =~= old(self).stack().update(
                        old(self).stack().len() - 1,
                        (old(self).stack().last().0, true),
                    ));
                }
            },
            None => {
            },
        }
        push_ind(sink, self.prop_child_existence.len());
        self.prop_child_existence.push((properties.len() > 0, false));
        sink.append(name);
        sink.append(": ");
        let prop_depth: usize = self.prop_child_existence.len();
        crate::property::push_properties(sink, properties, prop_depth);
        proof {
            assert(self.prop_child_existence@ =~= stack_after_start(
                old(self).stack(),
                properties@.len() > 0,
            ));
            assert(sink@ =~= old(sink)@ + start_node_text(old(self).stack(), name@, properties@));
        }
        Ok(())
    }

    /// Closes the innermost open node, choosing one of three terminal
    /// shapes: empty braces, only a closing brace, or a bare line break.
    ///
    /// Closing with no node open is a caller-contract violation.
    pub fn emit_end_node(&mut self, sink: &mut String) -> (r: Result<(), Error>)
        ensures
            old(self).stack().len() == 0 ==> {
                &&& r matches Err(e)
                &&& e.spec_pos() == 0
                &&& e.spec_kind() matches ErrorKind::DataError(m)
                &&& m@ == "no node is open"@
                &&& final(self).stack() == old(self).stack()
                &&& final(sink)@ == old(sink)@
            },
            old(self).stack().len() > 0 ==> {
                &&& r is Ok
                &&& final(self).stack() == old(self).stack().drop_last()
                &&& final(sink)@ == old(sink)@ + end_node_text(
                    old(self).stack().last(),
                    (old(self).stack().len() - 1) as nat,
                )
            },
    {
        match self.prop_child_existence.pop() {
            None => Err(Error::new(0, ErrorKind::DataError(String::from_str("no node is open")))),
            Some(frame) => {
                if !frame.0 || frame.1 {
                    if !frame.0 && !frame.1 {
                        sink.append(" {\n");
                    }
                    push_ind(sink, self.prop_child_existence.len());
                    sink.append("}\n");
                } else {
                    sink.append("\n");
                }
                proof {
                    assert(self.prop_child_existence@ =~= old(self).stack().drop_last());
                    assert(sink@ =~= old(sink)@ + end_node_text(
                        old(self).stack().last(),
                        (old(self).stack().len() - 1) as nat,
                    ));
                }
                Ok(())
            },
        }
    }

    /// Writes each line of `comment` on its own, indented to the current
    /// nesting depth.  The node stack is untouched: comments never influence
    /// brace placement.
    pub fn emit_comment(&mut self, sink: &mut String, comment: &str) -> (r: Result<(), Error>)
        ensures
            r is Ok,
            final(self).stack() == old(self).stack(),
            final(sink)@ == old(sink)@ + comment_text(comment@, old(self).depth()),
    {
        let cs: Vec<char> = str_chars(comment);
        let depth: usize = self.prop_child_existence.len();
        let n: usize = cs.len();
        let mut start: usize = 0;
        let mut i: usize = 0;
        proof {
            assert(cs@.skip(0) =~= cs@);
        }
        while i < n
            invariant
                cs@ == comment@,
                n == cs@.len(),
                depth == old(self).stack().len(),
                start <= i <= n,
                forall|k: int| start <= k < i ==> cs@[k] != '\n',
                old(sink)@ + comment_text(cs@, depth as nat) == sink@ + comment_text(
                    cs@.skip(start as int),
                    depth as nat,
                ),
            decreases n - i,
        {
            if cs[i] == '\n' {
                push_ind(sink, depth);
                let line_end: usize = if i > start && cs[i - 1] == '\r' {
                    i - 1
                } else {
                    i
                };
                push_chars(sink, &cs, start, line_end);
                crate::text::push_char(sink, '\n');
                proof {
                    let rem = cs@.skip(start as int);
                    crate::text::lemma_first_nl_at(rem, (i - start) as int);
                    assert(first_nl(rem) == i - start);
                    assert(rem.take((i - start) as int) =~= cs@.subrange(start as int, i as int));
                    assert(crate::text::strip_trailing_cr(rem.take((i - start) as int))
                        =~= cs@.subrange(start as int, line_end as int));
                    assert(rem.skip((i - start + 1) as int) =~= cs@.skip((i + 1) as int));
                    assert(comment_text(rem, depth as nat) == ind_text(depth as nat)
                        + cs@.subrange(start as int, line_end as int) + seq!['\n'] + comment_text(
                        cs@.skip((i + 1) as int),
                        depth as nat,
                    ));
                    assert(old(sink)@ + comment_text(cs@, depth as nat) =~= sink@ + comment_text(
                        cs@.skip((i + 1) as int),
                        depth as nat,
                    ));
                }
                start = i + 1;
            }
            i = i + 1;
        }
        if start < n {
            push_ind(sink, depth);
            push_chars(sink, &cs, start, n);
            crate::text::push_char(sink, '\n');
            proof {
                let rem = cs@.skip(start as int);
                crate::text::lemma_first_nl_at(rem, (n - start) as int);
                assert(first_nl(rem) == rem.len());
                assert(rem =~= cs@.subrange(start as int, n as int));
                assert(comment_text(rem, depth as nat) == ind_text(depth as nat) + rem
                    + seq!['\n']);
                assert(old(sink)@ + comment_text(cs@, depth as nat) =~= sink@);
            }
        } else {
            proof {
                assert(cs@.skip(start as int) =~= Seq::<char>::empty());
                assert(comment_text(cs@.skip(start as int), depth as nat)
                    == Seq::<char>::empty());
                assert(old(sink)@ + comment_text(cs@, depth as nat) =~= sink@);
            }
        }
        Ok(())
    }
}

} // verus!
