//! Accumulates code lines and data records, and renders the assembly text.
use vstd::prelude::*;
use vstd::string::StringExecFns;

use crate::instruction::{mov_text, Mov};
use crate::text::{decimal_digits, push_char, push_decimal_digits, push_str};
use crate::value::{record_text, Literal, Value};

verus! {

/// A directive (starts with `.`) or a label (ends with `:`).
pub open spec fn is_directive_or_label(l: Seq<char>) -> bool {
    l.len() > 0 && (l[0] == '.' || l.last() == ':')
}

pub open spec fn spaces(n: nat) -> Seq<char> {
    Seq::new(n, |i: int| ' ')
}

/// A code line as emitted: directives and labels as they are, every other
/// line after eight spaces; each ends with a newline.
pub open spec fn render_line(l: Seq<char>) -> Seq<char> {
    if is_directive_or_label(l) {
        l.push('\n')
    } else {
        spaces(8) + l.push('\n')
    }
}

/// The code section as emitted: each line rendered, in order.
pub open spec fn render_code(ls: Seq<Seq<char>>) -> Seq<char>
    decreases ls.len(),
{
    if ls.len() == 0 {
        Seq::empty()
    } else {
        render_code(ls.drop_last()) + render_line(ls.last())
    }
}

/// The label of the data record at position `i`: `LC_<i>`.
pub open spec fn label_of(i: nat) -> Seq<char> {
    "LC_"@ + decimal_digits(i)
}

/// The data section as emitted: each record under its label, in order.
pub open spec fn render_data(ds: Seq<Literal>) -> Seq<char>
    decreases ds.len(),
{
    if ds.len() == 0 {
        Seq::empty()
    } else {
        render_data(ds.drop_last()) + record_text(label_of((ds.len() - 1) as nat), ds.last())
    }
}

/// Rendering a code section is rendering its parts one after the other.
pub proof fn lemma_render_code_concat(a: Seq<Seq<char>>, b: Seq<Seq<char>>)
    ensures
        render_code(a + b) == render_code(a) + render_code(b),
    decreases b.len(),
{
    if b.len() == 0 {
        assert(a + b =~= a);
        assert(render_code(a) + render_code(b) =~= render_code(a));
    } else {
        lemma_render_code_concat(a, b.drop_last());
        assert((a + b).drop_last() =~= a + b.drop_last());
        assert((a + b).last() == b.last());
        assert(render_code(a + b) =~= render_code(a) + render_code(b));
    }
}

/// Every code line stands in the rendered text on a line of its own, in
/// order: a directive or label line (one that starts with `.` or ends with
/// `:`) with no indentation, every other line after exactly eight spaces.
pub proof fn lemma_code_layout(lines: Seq<Seq<char>>, i: int)
    requires
        0 <= i < lines.len(),
    ensures
        render_code(lines) == render_code(lines.take(i)) + (if is_directive_or_label(lines[i]) {
            lines[i]
        } else {
            spaces(8) + lines[i]
        }) + seq!['\n'] + render_code(lines.skip(i + 1)),
{
    let pre = lines.take(i);
    let mid = seq![lines[i]];
    let post = lines.skip(i + 1);
    assert(lines =~= pre + mid + post);
    lemma_render_code_concat(pre + mid, post);
    lemma_render_code_concat(pre, mid);
    assert(mid.drop_last() =~= Seq::<Seq<char>>::empty());
    assert(render_code(Seq::<Seq<char>>::empty()) == Seq::<char>::empty());
    assert(mid.last() == lines[i]);
    assert(render_code(mid) =~= render_line(lines[i]));
    if is_directive_or_label(lines[i]) {
        assert(render_line(lines[i]) =~= lines[i] + seq!['\n']);
    } else {
        assert(render_line(lines[i]) =~= spaces(8) + lines[i] + seq!['\n']);
    }
}

fn is_directive_or_label_line(line: &String) -> (r: bool)
    ensures
        r == is_directive_or_label(line@),
{
    let mut seen = false;
    let mut first: char = ' ';
    let mut last: char = ' ';
    for c in it: line.as_str().chars()
        invariant
            it.seq() == line@,
            seen == (it.index() > 0),
            seen ==> first == line@[0] && last == line@[it.index() - 1],
    {
        if !seen {
            first = c;
        }
        last = c;
        seen = true;
    }
    seen && (first == '.' || last == ':')
}

/// Code lines and data records, appended in order.
pub struct AssemblyBuilder {
    code_section: Vec<String>,
    data_section: Vec<Value>,
}

impl View for AssemblyBuilder {
    /// The code lines, and the payloads of the data records.
    type V = (Seq<Seq<char>>, Seq<Literal>);

    closed spec fn view(&self) -> (Seq<Seq<char>>, Seq<Literal>) {
        (
            self.code_section@.map_values(|s: String| s@),
            self.data_section@.map_values(|v: Value| v.literal),
        )
    }
}

impl AssemblyBuilder {
    /// Each data record carries the label of its position.
    pub closed spec fn wf(&self) -> bool {
        forall|i: int|
            0 <= i < self.data_section@.len() ==> (#[trigger] self.data_section@[i]).label@
                == label_of(i as nat)
    }

    pub fn new() -> (r: AssemblyBuilder)
        ensures
            r.wf(),
            r@.0 == Seq::<Seq<char>>::empty(),
            r@.1 == Seq::<Literal>::empty(),
    {
        let r = AssemblyBuilder { code_section: Vec::new(), data_section: Vec::new() };
        proof {
            assert(r@.0 =~= Seq::<Seq<char>>::empty());
            assert(r@.1 =~= Seq::<Literal>::empty());
        }
        r
    }

    /// The code lines so far.
    pub fn code_section(&self) -> (r: &Vec<String>)
        ensures
            r@.map_values(|s: String| s@) == self@.0,
    {
        &self.code_section
    }

    /// The data records so far.
    pub fn data_section(&self) -> (r: &Vec<Value>)
        ensures
            r@.map_values(|v: Value| v.literal) == self@.1,
            self.wf() ==> forall|i: int| 0 <= i < r@.len() ==> (#[trigger] r@[i]).label@ == label_of(i as nat),
    {
        &self.data_section
    }

    /// Appends a code line as it is.
    pub fn add(&mut self, assembly_code: String)
        requires
            old(self).wf(),
        ensures
            final(self).wf(),
            final(self)@.0 == old(self)@.0.push(assembly_code@),
            final(self)@.1 == old(self)@.1,
    {
        self.code_section.push(assembly_code);
        proof {
            assert(final(self)@.0 =~= old(self)@.0.push(assembly_code@));
        }
    }

    /// The assembly text: the rendered code section, then the data section.
    pub fn build(&self) -> (r: String)
        requires
            self.wf(),
        ensures
            r@ == render_code(self@.0) + render_data(self@.1),
    {
        let mut result = String::new();
        self.push_instructions(&mut result);
        self.push_data(&mut result);
        proof {
            assert(result@ =~= render_code(self@.0) + render_data(self@.1));
        }
        result
    }

    fn push_data(&self, result: &mut String)
        requires
            self.wf(),
        ensures
            final(result)@ == old(result)@ + render_data(self@.1),
    {
        let ghost ds = self@.1;
        let mut i: usize = 0;
        while i < self.data_section.len()
            invariant
                i <= self.data_section.len(),
                self.wf(),
                ds == self@.1,
                result@ == old(result)@ + render_data(ds.take(i as int)),
            decreases self.data_section.len() - i,
        {
            let ghost before = result@;
            self.data_section[i].push_text(result);
            proof {
                assert(ds.take(i + 1).drop_last() =~= ds.take(i as int));
                assert(result@ =~= old(result)@ + render_data(ds.take(i + 1)));
            }
            i = i + 1;
        }
        proof {
            assert(ds.take(i as int) =~= ds);
        }
    }

    fn push_instructions(&self, result: &mut String)
        ensures
            final(result)@ == old(result)@ + render_code(self@.0),
    {
        let ghost ls = self@.0;
        let mut i: usize = 0;
        while i < self.code_section.len()
            invariant
                i <= self.code_section.len(),
                ls == self@.0,
                result@ == old(result)@ + render_code(ls.take(i as int)),
            decreases self.code_section.len() - i,
        {
            let line = &self.code_section[i];
            if !is_directive_or_label_line(line) {
                push_str(result, "        ");
            }
            push_str(result, line.as_str());
            push_char(result, '\n');
            proof {
                reveal_strlit("        ");
                assert("        "@ =~= spaces(8));
                assert(ls.take(i + 1).drop_last() =~= ls.take(i as int));
                assert(result@ =~= old(result)@ + render_code(ls.take(i + 1)));
            }
            i = i + 1;
        }
        proof {
            assert(ls.take(i as int) =~= ls);
        }
    }

    /// Appends a move instruction.
    pub fn mov(&mut self, mov_instr: Mov)
        requires
            old(self).wf(),
        ensures
            final(self).wf(),
            final(self)@.0 == old(self)@.0.push(mov_text(mov_instr)),
            final(self)@.1 == old(self)@.1,
    {
        let mov_code = mov_instr.to_string();
        self.add(mov_code);
    }

    /// Appends `ret`.
    pub fn ret(&mut self)
        requires
            old(self).wf(),
        ensures
            final(self).wf(),
            final(self)@.0 == old(self)@.0.push("ret"@),
            final(self)@.1 == old(self)@.1,
    {
        self.add(String::from_str("ret"));
    }

    /// Opens a function: its `.global` and `.type` directives and its label.
    pub fn new_fn(&mut self, name: &str)
        requires
            old(self).wf(),
        ensures
            final(self).wf(),
            final(self)@.0 == old(self)@.0 + function_header(name@),
            final(self)@.1 == old(self)@.1,
    {
        let mut global = String::from_str(".global ");
        push_str(&mut global, name);
        let mut ty = String::from_str(".type ");
        push_str(&mut ty, name);
        push_str(&mut ty, ", @function");
        let mut label = String::from_str(name);
        push_char(&mut label, ':');
        self.add(global);
        self.add(ty);
        self.add(label);
        proof {
            assert(final(self)@.0 =~= old(self)@.0 + function_header(name@));
        }
    }

    /// Appends a data record labelled by its position (`LC_0`, `LC_1`, ...)
    /// and returns it.
    pub fn new_float(&mut self, f: Literal) -> (r: Value)
        requires
            old(self).wf(),
        ensures
            final(self).wf(),
            final(self)@.0 == old(self)@.0,
            final(self)@.1 == old(self)@.1.push(f),
            r.literal == f,
            r.label@ == label_of(old(self)@.1.len()),
    {
        let n = self.data_section.len();
        let mut label = String::from_str("LC_");
        push_decimal_digits(&mut label, n as u64);
        let v = Value::new(f, label);
        let copy = Value::new(f, v.label.clone());
        self.data_section.push(v);
        proof {
            assert(final(self)@.1 =~= old(self)@.1.push(f));
            assert(final(self)@.0 =~= old(self)@.0);
        }
        copy
    }
}

/// The three lines that open a function.
pub open spec fn function_header(name: Seq<char>) -> Seq<Seq<char>> {
    seq![".global "@ + name, ".type "@ + name + ", @function"@, name.push(':')]
}

} // verus!
