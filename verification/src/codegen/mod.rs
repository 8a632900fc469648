//! The text of generated query code: lines, indentation, fresh variable
//! names, and the declarations of the query function's preamble.

use vstd::prelude::*;

use crate::util::decimal::{nat_to_decimal, push_u64};
use crate::util::strings::str_eq;

verus! {

/// Four spaces per level of indentation.
pub open spec fn indent_text(n: nat) -> Seq<char>
    decreases n,
{
    if n == 0 {
        Seq::empty()
    } else {
        indent_text((n - 1) as nat) + seq![' ', ' ', ' ', ' ']
    }
}

/// A line at the given indentation.
pub open spec fn line_text(indent: nat, s: Seq<char>) -> Seq<char> {
    indent_text(indent) + s + seq!['\n']
}

/// Preamble lines, each at indentation one.
pub open spec fn preamble_text(lines: Seq<String>) -> Seq<char>
    decreases lines.len(),
{
    if lines.len() == 0 {
        Seq::empty()
    } else {
        preamble_text(lines.drop_last()) + line_text(1, lines.last()@)
    }
}

/// The value recorded for the first entry with the given key.
pub open spec fn first_value(entries: Seq<(String, String)>, key: Seq<char>) -> Option<Seq<char>>
    decreases entries.len(),
{
    if entries.len() == 0 {
        None
    } else if entries[0].0@ == key {
        Some(entries[0].1@)
    } else {
        first_value(entries.drop_first(), key)
    }
}

/// The value recorded for the first entry with the given pair of keys.
pub open spec fn first_value2(entries: Seq<((String, String), String)>, k1: Seq<char>, k2: Seq<char>) -> Option<
    Seq<char>,
>
    decreases entries.len(),
{
    if entries.len() == 0 {
        None
    } else if entries[0].0.0@ == k1 && entries[0].0.1@ == k2 {
        Some(entries[0].1@)
    } else {
        first_value2(entries.drop_first(), k1, k2)
    }
}

/// Builds the text of generated code.
#[derive(Debug)]
pub struct Codegen {
    /// The code outside the current function, and every finished function
    pub buf: String,
    /// The body of the current function, without its preamble
    pub func_body: String,
    /// Declarations that stand at the top of the current function
    pub func_preamble: Vec<String>,
    /// Lines go to the current function's body
    pub in_function: bool,
    /// The current indentation level
    pub indent: usize,
    /// The number of the next fresh variable
    pub tmp_counter: usize,
    /// Table name to the variable holding the table
    pub table_map: Vec<(String, String)>,
    /// (table variable, column name) to the variable holding the column index
    pub col_map: Vec<((String, String), String)>,
}

impl Codegen {
    /// An empty code builder.
    pub fn new() -> (cg: Self)
        ensures
            cg.buf@.len() == 0,
            cg.func_body@.len() == 0,
            cg.func_preamble@.len() == 0,
            !cg.in_function,
            cg.indent == 0,
            cg.tmp_counter == 0,
            cg.table_map@.len() == 0,
            cg.col_map@.len() == 0,
    {
        Codegen {
            buf: String::new(),
            func_body: String::new(),
            func_preamble: Vec::new(),
            in_function: false,
            indent: 0,
            tmp_counter: 0,
            table_map: Vec::new(),
            col_map: Vec::new(),
        }
    }

    /// The code built so far.
    pub fn text(&self) -> (t: &str)
        ensures
            t@ == self.buf@,
    {
        self.buf.as_str()
    }

    /// Forgets all code and declarations.
    pub fn clear(&mut self)
        ensures
            final(self).buf@.len() == 0,
            final(self).func_body@.len() == 0,
            final(self).func_preamble@.len() == 0,
            !final(self).in_function,
            final(self).indent == 0,
            final(self).tmp_counter == 0,
            final(self).table_map@.len() == 0,
            final(self).col_map@.len() == 0,
    {
        self.buf = String::new();
        self.func_body = String::new();
        self.func_preamble = Vec::new();
        self.table_map = Vec::new();
        self.col_map = Vec::new();
        self.in_function = false;
        self.indent = 0;
        self.tmp_counter = 0;
    }

    /// Appends a line at the given indentation.
    fn push_line_to(target: &mut String, indent: usize, s: &str)
        ensures
            final(target)@ == old(target)@ + line_text(indent as nat, s@),
    {
        push_indent(target, indent);
        target.append(s);
        target.append("\n");
        proof {
            reveal_strlit("\n");
        }
        assert(final(target)@ =~= old(target)@ + line_text(indent as nat, s@));
    }

    /// The text that receives lines: the function body inside a function.
    pub open spec fn target_text(&self) -> Seq<char> {
        if self.in_function {
            self.func_body@
        } else {
            self.buf@
        }
    }

    /// Only the text that receives lines changed, by `added`.
    pub open spec fn appended(&self, old: &Codegen, added: Seq<char>) -> bool {
        &&& self.in_function == old.in_function
        &&& self.indent == old.indent
        &&& self.tmp_counter == old.tmp_counter
        &&& self.func_preamble@ == old.func_preamble@
        &&& self.table_map@ == old.table_map@
        &&& self.col_map@ == old.col_map@
        &&& self.target_text() == old.target_text() + added
        &&& self.in_function ==> self.buf@ == old.buf@
        &&& !self.in_function ==> self.func_body@ == old.func_body@
    }

    /// Appending `x` and then `y` appends `x + y`.
    pub proof fn lemma_appended_chain(a: &Codegen, b: &Codegen, c: &Codegen, x: Seq<char>, y: Seq<char>)
        requires
            b.appended(a, x),
            c.appended(b, y),
        ensures
            c.appended(a, x + y),
    {
        assert(a.target_text() + x + y =~= a.target_text() + (x + y));
    }

    /// Writes a line at the current indentation.
    pub fn line(&mut self, s: &str)
        ensures
            final(self).appended(old(self), line_text(old(self).indent as nat, s@)),
    {
        if self.in_function {
            Self::push_line_to(&mut self.func_body, self.indent, s);
        } else {
            Self::push_line_to(&mut self.buf, self.indent, s);
        }
    }

    /// Writes indentation and text, without ending the line.
    pub fn same_line(&mut self, s: &str)
        ensures
            final(self).appended(old(self), indent_text(old(self).indent as nat) + s@),
    {
        if self.in_function {
            push_indent(&mut self.func_body, self.indent);
            self.func_body.append(s);
        } else {
            push_indent(&mut self.buf, self.indent);
            self.buf.append(s);
        }
        assert(self.target_text() =~= old(self).target_text() + (indent_text(old(self).indent as nat) + s@));
    }

    /// Writes the line `s {` and indents the lines that follow one level more.
    pub fn open(&mut self, s: &str)
        requires
            old(self).indent < usize::MAX,
        ensures
            final(self).indent == old(self).indent + 1,
            final(self).target_text() == old(self).target_text() + line_text(
                old(self).indent as nat,
                s@ + " {"@,
            ),
            final(self).in_function == old(self).in_function,
            final(self).tmp_counter == old(self).tmp_counter,
            final(self).func_preamble@ == old(self).func_preamble@,
            final(self).table_map@ == old(self).table_map@,
            final(self).col_map@ == old(self).col_map@,
            final(self).in_function ==> final(self).buf@ == old(self).buf@,
            !final(self).in_function ==> final(self).func_body@ == old(self).func_body@,
    {
        let mut l = String::from_str(s);
        l.append(" {");
        self.line(l.as_str());
        self.indent = self.indent + 1;
    }

    /// Indents the lines that follow one level less and writes the line `}`.
    pub fn close(&mut self)
        ensures
            final(self).indent == if old(self).indent > 0 {
                old(self).indent - 1
            } else {
                0
            },
            final(self).target_text() == old(self).target_text() + line_text(
                final(self).indent as nat,
                "}"@,
            ),
            final(self).in_function == old(self).in_function,
            final(self).tmp_counter == old(self).tmp_counter,
            final(self).func_preamble@ == old(self).func_preamble@,
            final(self).table_map@ == old(self).table_map@,
            final(self).col_map@ == old(self).col_map@,
            final(self).in_function ==> final(self).buf@ == old(self).buf@,
            !final(self).in_function ==> final(self).func_body@ == old(self).func_body@,
    {
        if self.indent > 0 {
            self.indent = self.indent - 1;
        }
        self.line("}");
    }

    /// A fresh variable name: the prefix and the number of the next variable.
    pub fn new_var(&mut self, prefix: &str) -> (name: String)
        ensures
            name@ == prefix@ + nat_to_decimal(old(self).tmp_counter as nat),
            final(self).tmp_counter == old(self).tmp_counter.wrapping_add(1),
            final(self).buf@ == old(self).buf@,
            final(self).func_body@ == old(self).func_body@,
            final(self).func_preamble@ == old(self).func_preamble@,
            final(self).in_function == old(self).in_function,
            final(self).indent == old(self).indent,
            final(self).table_map@ == old(self).table_map@,
            final(self).col_map@ == old(self).col_map@,
    {
        let mut name = String::from_str(prefix);
        push_u64(&mut name, self.tmp_counter as u64);
        self.tmp_counter = self.tmp_counter.wrapping_add(1);
        name
    }

    /// Adds a declaration to the current function's preamble.
    pub fn preamble_line(&mut self, s: String)
        ensures
            final(self).func_preamble@ == old(self).func_preamble@.push(s),
            final(self).buf@ == old(self).buf@,
            final(self).func_body@ == old(self).func_body@,
            final(self).in_function == old(self).in_function,
            final(self).indent == old(self).indent,
            final(self).tmp_counter == old(self).tmp_counter,
            final(self).table_map@ == old(self).table_map@,
            final(self).col_map@ == old(self).col_map@,
    {
        self.func_preamble.push(s);
    }
}

/// Appends `n` levels of indentation.
fn push_indent(target: &mut String, n: usize)
    ensures
        final(target)@ == old(target)@ + indent_text(n as nat),
{
    let mut i: usize = 0;
    while i < n
        invariant
            i <= n,
            target@ == old(target)@ + indent_text(i as nat),
        decreases n - i,
    {
        target.append("    ");
        proof {
            reveal_strlit("    ");
        }
        i = i + 1;
        assert(target@ =~= old(target)@ + indent_text(i as nat));
    }
}

/// The value recorded for a key, if any.
fn lookup_value(entries: &Vec<(String, String)>, key: &str) -> (r: Option<String>)
    ensures
        match r {
            Some(v) => first_value(entries@, key@) == Some(v@),
            None => first_value(entries@, key@) is None,
        },
{
    let n = entries.len();
    let mut i: usize = 0;
    assert(entries@.skip(0) =~= entries@);
    while i < n
        invariant
            i <= n,
            n == entries@.len(),
            first_value(entries@, key@) == first_value(entries@.skip(i as int), key@),
        decreases n - i,
    {
        assert(entries@.skip(i as int).drop_first() =~= entries@.skip(i + 1));
        if str_eq(entries[i].0.as_str(), key) {
            return Some(entries[i].1.clone());
        }
        i = i + 1;
    }
    None
}

/// The value recorded for a pair of keys, if any.
fn lookup_value2(entries: &Vec<((String, String), String)>, k1: &str, k2: &str) -> (r: Option<String>)
    ensures
        match r {
            Some(v) => first_value2(entries@, k1@, k2@) == Some(v@),
            None => first_value2(entries@, k1@, k2@) is None,
        },
{
    let n = entries.len();
    let mut i: usize = 0;
    assert(entries@.skip(0) =~= entries@);
    while i < n
        invariant
            i <= n,
            n == entries@.len(),
            first_value2(entries@, k1@, k2@) == first_value2(entries@.skip(i as int), k1@, k2@),
        decreases n - i,
    {
        assert(entries@.skip(i as int).drop_first() =~= entries@.skip(i + 1));
        if str_eq(entries[i].0.0.as_str(), k1) && str_eq(entries[i].0.1.as_str(), k2) {
            return Some(entries[i].1.clone());
        }
        i = i + 1;
    }
    None
}

impl Codegen {
    /// Starts the query function with the given name: its header line and the
    /// declarations that read the database argument.
    pub fn start_function(&mut self, name: &str)
        requires
            !old(self).in_function,
            old(self).indent < usize::MAX,
        ensures
            final(self).in_function,
            final(self).indent == old(self).indent + 1,
            final(self).tmp_counter == old(self).tmp_counter,
            final(self).buf@ == old(self).buf@ + line_text(
                old(self).indent as nat,
                "#[no_mangle] pub extern \"C\" fn "@ + name@
                    + "(db: *const imlab::db::Database) -> i32"@ + " {"@,
            ),
            final(self).func_body@.len() == 0,
            final(self).func_preamble@.map_values(|l: String| l@) == seq![
                "if db.is_null() { return -1; }"@,
                "let db = unsafe { &*db };"@,
            ],
            final(self).table_map@.len() == 0,
            final(self).col_map@.len() == 0,
    {
        self.func_body = String::new();
        self.func_preamble = Vec::new();
        self.table_map = Vec::new();
        self.col_map = Vec::new();
        let mut header = String::from_str("#[no_mangle] pub extern \"C\" fn ");
        header.append(name);
        header.append("(db: *const imlab::db::Database) -> i32");
        self.open(header.as_str());
        self.in_function = true;
        self.preamble_line(String::from_str("if db.is_null() { return -1; }"));
        self.preamble_line(String::from_str("let db = unsafe { &*db };"));
        assert(self.func_preamble@.map_values(|l: String| l@) =~= seq![
            "if db.is_null() { return -1; }"@,
            "let db = unsafe { &*db };"@,
        ]);
    }

    /// Ends the query function: its preamble, its body, the line that returns
    /// the number of rows, and the closing brace.
    pub fn end_function(&mut self)
        requires
            old(self).in_function,
        ensures
            !final(self).in_function,
            final(self).indent == if old(self).indent > 0 {
                old(self).indent - 1
            } else {
                0
            },
            final(self).buf@ == old(self).buf@ + preamble_text(old(self).func_preamble@)
                + old(self).func_body@ + line_text(1, "rows as i32"@) + line_text(
                final(self).indent as nat,
                "}"@,
            ),
            final(self).func_body@.len() == 0,
            final(self).func_preamble@.len() == 0,
            final(self).tmp_counter == old(self).tmp_counter,
    {
        self.in_function = false;
        let n = self.func_preamble.len();
        let mut i: usize = 0;
        while i < n
            invariant
                i <= n,
                n == self.func_preamble@.len(),
                self.func_preamble@ == old(self).func_preamble@,
                !self.in_function,
                self.indent == old(self).indent,
                self.tmp_counter == old(self).tmp_counter,
                self.func_body@ == old(self).func_body@,
                self.buf@ == old(self).buf@ + preamble_text(self.func_preamble@.take(i as int)),
            decreases n - i,
        {
            assert(self.func_preamble@.take(i + 1).drop_last() =~= self.func_preamble@.take(i as int));
            Self::push_line_to(&mut self.buf, 1, self.func_preamble[i].as_str());
            i = i + 1;
        }
        assert(self.func_preamble@.take(n as int) =~= self.func_preamble@);
        self.func_preamble = Vec::new();
        self.buf.append(self.func_body.as_str());
        self.func_body = String::new();
        Self::push_line_to(&mut self.buf, 1, "rows as i32");
        self.close();
    }

    /// The variable holding the named table, declared in the preamble the
    /// first time the table is asked for.
    pub fn get_and_declare_table(&mut self, table_name: &str) -> (var: String)
        ensures
            match first_value(old(self).table_map@, table_name@) {
                Some(v) => var@ == v && *final(self) == *old(self),
                None => {
                    &&& var@ == "table_"@ + nat_to_decimal(old(self).tmp_counter as nat)
                    &&& final(self).tmp_counter == old(self).tmp_counter.wrapping_add(1)
                    &&& final(self).func_preamble@.map_values(|l: String| l@) == old(
                        self,
                    ).func_preamble@.map_values(|l: String| l@).push(
                        "let "@ + var@ + " = db.get_table(\""@ + table_name@ + "\").unwrap();"@,
                    )
                    &&& first_value(final(self).table_map@, table_name@) == Some(var@)
                    &&& final(self).buf@ == old(self).buf@
                    &&& final(self).func_body@ == old(self).func_body@
                    &&& final(self).in_function == old(self).in_function
                    &&& final(self).indent == old(self).indent
                    &&& final(self).col_map@ == old(self).col_map@
                },
            },
    {
        if let Some(v) = lookup_value(&self.table_map, table_name) {
            return v;
        }
        let var = self.new_var("table_");
        let mut decl = String::from_str("let ");
        decl.append(var.as_str());
        decl.append(" = db.get_table(\"");
        decl.append(table_name);
        decl.append("\").unwrap();");
        let ghost pre = self.func_preamble@;
        self.preamble_line(decl);
        assert(self.func_preamble@.map_values(|l: String| l@) =~= pre.map_values(|l: String| l@).push(
            "let "@ + var@ + " = db.get_table(\""@ + table_name@ + "\").unwrap();"@,
        ));
        let ghost tm = self.table_map@;
        self.table_map.insert(0, (String::from_str(table_name), var.clone()));
        assert(self.table_map@.drop_first() =~= tm);
        var
    }

    /// The variable holding the index of the named column of the table held by
    /// `table_var`, declared in the preamble the first time it is asked for.
    pub fn get_and_declare_col(&mut self, table_var: &str, col_name: &str) -> (var: String)
        ensures
            match first_value2(old(self).col_map@, table_var@, col_name@) {
                Some(v) => var@ == v && *final(self) == *old(self),
                None => {
                    &&& var@ == "col_"@ + nat_to_decimal(old(self).tmp_counter as nat)
                    &&& final(self).tmp_counter == old(self).tmp_counter.wrapping_add(1)
                    &&& final(self).func_preamble@.map_values(|l: String| l@) == old(
                        self,
                    ).func_preamble@.map_values(|l: String| l@).push(
                        "let "@ + var@ + " = "@ + table_var@ + ".get_col_index(\""@ + col_name@
                            + "\").unwrap() as usize;"@,
                    )
                    &&& first_value2(final(self).col_map@, table_var@, col_name@) == Some(var@)
                    &&& final(self).buf@ == old(self).buf@
                    &&& final(self).func_body@ == old(self).func_body@
                    &&& final(self).in_function == old(self).in_function
                    &&& final(self).indent == old(self).indent
                    &&& final(self).table_map@ == old(self).table_map@
                },
            },
    {
        if let Some(v) = lookup_value2(&self.col_map, table_var, col_name) {
            return v;
        }
        let var = self.new_var("col_");
        let mut decl = String::from_str("let ");
        decl.append(var.as_str());
        decl.append(" = ");
        decl.append(table_var);
        decl.append(".get_col_index(\"");
        decl.append(col_name);
        decl.append("\").unwrap() as usize;");
        let ghost pre = self.func_preamble@;
        self.preamble_line(decl);
        assert(self.func_preamble@.map_values(|l: String| l@) =~= pre.map_values(|l: String| l@).push(
            "let "@ + var@ + " = "@ + table_var@ + ".get_col_index(\""@ + col_name@
                + "\").unwrap() as usize;"@,
        ));
        let ghost cm = self.col_map@;
        self.col_map.insert(0, ((String::from_str(table_var), String::from_str(col_name)), var.clone()));
        assert(self.col_map@.drop_first() =~= cm);
        var
    }
}

} // verus!
