//! A recursive-descent parser for `SELECT` and `INSERT` statements.
use vstd::prelude::*;
use vstd::string::*;
use crate::lexer::{tokenize, tokens_of};
use crate::text::{texts, lemma_texts_push, lemma_texts_len, lower_of, lowercase, decimal, decimal_string, same_text};

verus! {

/// A condition used in WHERE clauses: `column = value`.
pub struct Condition {
    pub column: String,
    pub value: String,
}

/// The statements this store understands.
pub enum Statement {
    Select {
        table: String,
        /// `["*"]` means all columns.
        columns: Vec<String>,
        condition: Option<Condition>,
    },
    Insert {
        table: String,
        /// `["*"]` means the values are given in the table's column order.
        columns: Vec<String>,
        values: Vec<String>,
    },
}

/// A statement seen as character sequences; a condition is its column and
/// its value.
pub enum StatementView {
    Select {
        table: Seq<char>,
        columns: Seq<Seq<char>>,
        condition: Option<(Seq<char>, Seq<char>)>,
    },
    Insert {
        table: Seq<char>,
        columns: Seq<Seq<char>>,
        values: Seq<Seq<char>>,
    },
}

impl View for Condition {
    type V = (Seq<char>, Seq<char>);

    open spec fn view(&self) -> (Seq<char>, Seq<char>) {
        (self.column@, self.value@)
    }
}

impl View for Statement {
    type V = StatementView;

    open spec fn view(&self) -> StatementView {
        match self {
            Statement::Select { table, columns, condition } => StatementView::Select {
                table: table@,
                columns: texts(columns@),
                condition: match condition {
                    Some(c) => Some(c@),
                    None => None,
                },
            },
            Statement::Insert { table, columns, values } => StatementView::Insert {
                table: table@,
                columns: texts(columns@),
                values: texts(values@),
            },
        }
    }
}

// The grammar, over the tokens `t` of a statement and their lower-case forms
// `l`. A parsing step from position `p` gives what it read and the position
// after it, or an error message.

pub open spec fn keyword_error(expected: Seq<char>, found: Seq<char>) -> Seq<char> {
    "Syntax error: expected '"@ + expected + "', found '"@ + found + "'"@
}

pub open spec fn keyword_end_error(expected: Seq<char>) -> Seq<char> {
    "Syntax error: expected '"@ + expected + "', found end of input"@
}

pub open spec fn end_error(role: Seq<char>) -> Seq<char> {
    "Syntax error: expected "@ + role + ", found end of input"@
}

pub open spec fn unclosed_error() -> Seq<char> {
    "Syntax error: unclosed parenthesis"@
}

pub open spec fn count_error(columns: nat, values: nat) -> Seq<char> {
    "Column count ("@ + decimal(columns) + ") does not match value count ("@ + decimal(values)
        + ")"@
}

pub open spec fn empty_error() -> Seq<char> {
    "Empty statement"@
}

pub open spec fn unknown_error(keyword: Seq<char>) -> Seq<char> {
    "Unknown statement: '"@ + keyword + "'"@
}

/// The lower-case form of the token at `p` must be `key`; errors show the
/// keyword as `shown`.
pub open spec fn expect_kw(t: Seq<Seq<char>>, l: Seq<Seq<char>>, p: int, key: Seq<char>, shown: Seq<char>) -> Result<int, Seq<char>> {
    if 0 <= p < t.len() {
        if l[p] == key {
            Ok(p + 1)
        } else {
            Err(keyword_error(shown, t[p]))
        }
    } else {
        Err(keyword_end_error(shown))
    }
}

/// Any token at `p`, in the given role.
pub open spec fn expect_any(t: Seq<Seq<char>>, p: int, role: Seq<char>) -> Result<(Seq<char>, int), Seq<char>> {
    if 0 <= p < t.len() {
        Ok((t[p], p + 1))
    } else {
        Err(end_error(role))
    }
}

/// The rest of a parenthesized list from `p`, after the items `acc`: `)`
/// ends it, `,` is skipped, any other token is an item.
pub open spec fn list_rest(t: Seq<Seq<char>>, p: int, acc: Seq<Seq<char>>) -> Result<(Seq<Seq<char>>, int), Seq<char>>
    decreases t.len() - p,
{
    if p < 0 || p >= t.len() {
        Err(unclosed_error())
    } else if t[p] == ")"@ {
        Ok((acc, p + 1))
    } else if t[p] == ","@ {
        list_rest(t, p + 1, acc)
    } else {
        list_rest(t, p + 1, acc.push(t[p]))
    }
}

/// A parenthesized list at `p`.
pub open spec fn paren_list(t: Seq<Seq<char>>, l: Seq<Seq<char>>, p: int) -> Result<(Seq<Seq<char>>, int), Seq<char>> {
    match expect_kw(t, l, p, "("@, "("@) {
        Err(e) => Err(e),
        Ok(q) => list_rest(t, q, Seq::empty()),
    }
}

/// The rest of a bare comma-separated column list from `p`, after the
/// names `acc`.
pub open spec fn column_rest(t: Seq<Seq<char>>, p: int, acc: Seq<Seq<char>>) -> Result<(Seq<Seq<char>>, int), Seq<char>>
    decreases t.len() - p,
{
    if p < 0 || p >= t.len() {
        Err(end_error("column name"@))
    } else if p + 1 < t.len() && t[p + 1] == ","@ {
        column_rest(t, p + 2, acc.push(t[p]))
    } else {
        Ok((acc.push(t[p]), p + 1))
    }
}

/// An optional `WHERE column = value` clause at `p`.
pub open spec fn where_clause(t: Seq<Seq<char>>, l: Seq<Seq<char>>, p: int) -> Result<(Option<(Seq<char>, Seq<char>)>, int), Seq<char>> {
    if 0 <= p < t.len() && l[p] == "where"@ {
        match expect_any(t, p + 1, "column name"@) {
            Err(e) => Err(e),
            Ok((column, q)) => match expect_kw(t, l, q, "="@, "="@) {
                Err(e) => Err(e),
                Ok(q2) => match expect_any(t, q2, "value"@) {
                    Err(e) => Err(e),
                    Ok((value, q3)) => Ok((Some((column, value)), q3)),
                },
            },
        }
    } else {
        Ok((None, p))
    }
}

/// The rest of a `SELECT` statement from `p`.
pub open spec fn select_rest(t: Seq<Seq<char>>, l: Seq<Seq<char>>, p: int) -> Result<StatementView, Seq<char>> {
    match column_rest(t, p, Seq::empty()) {
        Err(e) => Err(e),
        Ok((columns, q)) => match expect_kw(t, l, q, "from"@, "from"@) {
            Err(e) => Err(e),
            Ok(q2) => match expect_any(t, q2, "table name"@) {
                Err(e) => Err(e),
                Ok((table, q3)) => match where_clause(t, l, q3) {
                    Err(e) => Err(e),
                    Ok((condition, _)) => Ok(StatementView::Select { table, columns, condition }),
                },
            },
        },
    }
}

/// Whether an `INSERT` gives its column list explicitly, in parentheses.
pub open spec fn explicit_columns(t: Seq<Seq<char>>, p: int) -> bool {
    0 <= p < t.len() && t[p] == "("@
}

/// The column list of an `INSERT`: given in parentheses, or `["*"]`.
pub open spec fn insert_columns(t: Seq<Seq<char>>, l: Seq<Seq<char>>, p: int) -> Result<(Seq<Seq<char>>, int), Seq<char>> {
    if explicit_columns(t, p) {
        paren_list(t, l, p)
    } else {
        Ok((seq!["*"@], p))
    }
}

/// The rest of an `INSERT` statement from `p`.
pub open spec fn insert_rest(t: Seq<Seq<char>>, l: Seq<Seq<char>>, p: int) -> Result<StatementView, Seq<char>> {
    match expect_kw(t, l, p, "into"@, "into"@) {
        Err(e) => Err(e),
        Ok(q) => match expect_any(t, q, "table name"@) {
            Err(e) => Err(e),
            Ok((table, q2)) => match insert_columns(t, l, q2) {
                Err(e) => Err(e),
                Ok((columns, q3)) => match expect_kw(t, l, q3, "values"@, "values"@) {
                    Err(e) => Err(e),
                    Ok(q4) => match paren_list(t, l, q4) {
                        Err(e) => Err(e),
                        Ok((values, _)) => if explicit_columns(t, q2) && columns.len()
                            != values.len() {
                            Err(count_error(columns.len(), values.len()))
                        } else {
                            Ok(StatementView::Insert { table, columns, values })
                        },
                    },
                },
            },
        },
    }
}

/// The statement that tokens `t`, with lower-case forms `l`, spell.
pub open spec fn statement_of(t: Seq<Seq<char>>, l: Seq<Seq<char>>) -> Result<StatementView, Seq<char>> {
    if t.len() == 0 {
        Err(empty_error())
    } else if l[0] == "select"@ {
        select_rest(t, l, 1)
    } else if l[0] == "insert"@ {
        insert_rest(t, l, 1)
    } else {
        Err(unknown_error(l[0]))
    }
}

/// The lower-case form of each token.
pub open spec fn lowered(t: Seq<Seq<char>>) -> Seq<Seq<char>> {
    t.map_values(|s: Seq<char>| lower_of(s))
}

/// The statement that a line of text spells.
pub open spec fn parse_text(s: Seq<char>) -> Result<StatementView, Seq<char>> {
    statement_of(tokens_of(s), lowered(tokens_of(s)))
}

/// The outcome of a parse as views.
pub open spec fn parsed(r: Result<Statement, String>) -> Result<StatementView, Seq<char>> {
    match r {
        Ok(s) => Ok(s@),
        Err(e) => Err(e@),
    }
}


/// The view of an optional condition.
pub open spec fn condition_view(c: Option<Condition>) -> Option<(Seq<char>, Seq<char>)> {
    match c {
        Some(c) => Some(c@),
        None => None,
    }
}

fn keyword_message(expected: &str, found: &str) -> (r: String)
    ensures
        r@ == keyword_error(expected@, found@),
{
    let mut m = String::from_str("Syntax error: expected '");
    m.append(expected);
    m.append("', found '");
    m.append(found);
    m.append("'");
    m
}

fn keyword_end_message(expected: &str) -> (r: String)
    ensures
        r@ == keyword_end_error(expected@),
{
    let mut m = String::from_str("Syntax error: expected '");
    m.append(expected);
    m.append("', found end of input");
    m
}

fn end_message(role: &str) -> (r: String)
    ensures
        r@ == end_error(role@),
{
    let mut m = String::from_str("Syntax error: expected ");
    m.append(role);
    m.append(", found end of input");
    m
}

fn count_message(columns: usize, values: usize) -> (r: String)
    ensures
        r@ == count_error(columns as nat, values as nat),
{
    let mut m = String::from_str("Column count (");
    m.append(decimal_string(columns).as_str());
    m.append(") does not match value count (");
    m.append(decimal_string(values).as_str());
    m.append(")");
    m
}

/// The lower-case form of each string.
pub fn lower_all(v: &Vec<String>) -> (r: Vec<String>)
    ensures
        texts(r@) == lowered(texts(v@)),
{
    let mut out: Vec<String> = Vec::new();
    let mut i: usize = 0;
    while i < v.len()
        invariant
            i <= v.len(),
            texts(out@) == lowered(texts(v@.subrange(0, i as int))),
        decreases v.len() - i,
    {
        let low = lowercase(v[i].as_str());
        proof { lemma_texts_push(out@, low); }
        out.push(low);
        i = i + 1;
        assert(texts(out@) =~= lowered(texts(v@.subrange(0, i as int))));
    }
    assert(v@.subrange(0, v.len() as int) =~= v@);
    out
}

/// A cursor over the tokens of one statement, each with its lower-case form.
pub struct Parser {
    tokens: Vec<String>,
    lowered: Vec<String>,
    pos: usize,
}

impl Parser {
    /// The tokens.
    pub closed spec fn toks(&self) -> Seq<Seq<char>> {
        texts(self.tokens@)
    }

    /// The lower-case form of each token.
    pub closed spec fn lows(&self) -> Seq<Seq<char>> {
        texts(self.lowered@)
    }

    /// Where the cursor stands.
    pub closed spec fn pos(&self) -> int {
        self.pos as int
    }

    pub closed spec fn wf(&self) -> bool {
        &&& self.lowered.len() == self.tokens.len()
        &&& self.pos <= self.tokens.len()
    }

    /// Both cursors read the same tokens.
    pub open spec fn same_input(&self, other: &Parser) -> bool {
        &&& self.wf()
        &&& self.toks() == other.toks()
        &&& self.lows() == other.lows()
    }

    /// A cursor at the first of the tokens.
    pub fn new(tokens: Vec<String>) -> (r: Self)
        ensures
            r.wf(),
            r.toks() == texts(tokens@),
            r.lows() == lowered(texts(tokens@)),
            r.pos() == 0,
    {
        let lowered = lower_all(&tokens);
        proof {
            lemma_texts_len(tokens@);
            lemma_texts_len(lowered@);
        }
        Parser { tokens, lowered, pos: 0 }
    }

    /// A cursor at the first of the tokens, whose lower-case forms are given.
    pub fn with_lowered(tokens: Vec<String>, lowered: Vec<String>) -> (r: Self)
        requires
            lowered.len() == tokens.len(),
        ensures
            r.wf(),
            r.toks() == texts(tokens@),
            r.lows() == texts(lowered@),
            r.pos() == 0,
    {
        Parser { tokens, lowered, pos: 0 }
    }

    /// The token under the cursor.
    pub fn peek(&self) -> (r: Option<&str>)
        requires
            self.wf(),
        ensures
            match r {
                Some(s) => 0 <= self.pos() < self.toks().len() && s@ == self.toks()[self.pos()],
                None => self.pos() >= self.toks().len(),
            },
    {
        proof { lemma_texts_len(self.tokens@); }
        if self.pos < self.tokens.len() {
            Some(self.tokens[self.pos].as_str())
        } else {
            None
        }
    }

    /// The token under the cursor, which moves past it.
    pub fn next_token(&mut self) -> (r: Option<String>)
        requires
            old(self).wf(),
        ensures
            final(self).same_input(old(self)),
            match r {
                Some(s) => 0 <= old(self).pos() < old(self).toks().len()
                    && s@ == old(self).toks()[old(self).pos()]
                    && final(self).pos() == old(self).pos() + 1,
                None => old(self).pos() >= old(self).toks().len()
                    && final(self).pos() == old(self).pos(),
            },
    {
        proof { lemma_texts_len(self.tokens@); }
        if self.pos < self.tokens.len() {
            let tok = self.tokens[self.pos].clone();
            self.pos = self.pos + 1;
            Some(tok)
        } else {
            None
        }
    }

    /// Moves past the keyword `expected`: the lower-case forms of the token
    /// under the cursor and of `expected` must be equal.
    pub fn expect_keyword(&mut self, expected: &str) -> (r: Result<(), String>)
        requires
            old(self).wf(),
        ensures
            final(self).same_input(old(self)),
            match expect_kw(old(self).toks(), old(self).lows(), old(self).pos(), lower_of(expected@), expected@) {
                Ok(q) => r is Ok && final(self).pos() == q,
                Err(e) => r matches Err(m) && m@ == e,
            },
    {
        let key = lowercase(expected);
        self.expect_word(key.as_str(), expected)
    }

    /// Moves past a token whose lower-case form is `key`; errors show the
    /// keyword as `shown`.
    fn expect_word(&mut self, key: &str, shown: &str) -> (r: Result<(), String>)
        requires
            old(self).wf(),
        ensures
            final(self).same_input(old(self)),
            match expect_kw(old(self).toks(), old(self).lows(), old(self).pos(), key@, shown@) {
                Ok(q) => r is Ok && final(self).pos() == q,
                Err(e) => r matches Err(m) && m@ == e,
            },
    {
        proof {
            lemma_texts_len(self.tokens@);
            lemma_texts_len(self.lowered@);
        }
        if self.pos < self.tokens.len() {
            let i = self.pos;
            self.pos = self.pos + 1;
            if same_text(self.lowered[i].as_str(), key) {
                Ok(())
            } else {
                Err(keyword_message(shown, self.tokens[i].as_str()))
            }
        } else {
            Err(keyword_end_message(shown))
        }
    }

    /// Moves past any token, which stands in the given role.
    pub fn expect_any(&mut self, role: &str) -> (r: Result<String, String>)
        requires
            old(self).wf(),
        ensures
            final(self).same_input(old(self)),
            match expect_any(old(self).toks(), old(self).pos(), role@) {
                Ok((v, q)) => r matches Ok(s) && s@ == v && final(self).pos() == q,
                Err(e) => r matches Err(m) && m@ == e,
            },
    {
        match self.next_token() {
            Some(tok) => Ok(tok),
            None => Err(end_message(role)),
        }
    }

    /// Reads `( item item , item ... )`.
    pub fn parse_paren_list(&mut self) -> (r: Result<Vec<String>, String>)
        requires
            old(self).wf(),
        ensures
            final(self).same_input(old(self)),
            match paren_list(old(self).toks(), old(self).lows(), old(self).pos()) {
                Ok((items, q)) => r matches Ok(v) && texts(v@) == items && final(self).pos() == q,
                Err(e) => r matches Err(m) && m@ == e,
            },
    {
        let ghost t = self.toks();
        match self.expect_word("(", "(") {
            Err(e) => return Err(e),
            Ok(()) => {},
        }
        let ghost q0 = self.pos();
        let mut items: Vec<String> = Vec::new();
        assert(texts(items@) =~= Seq::<Seq<char>>::empty());
        loop
            invariant
                self.same_input(old(self)),
                t == self.toks(),
                list_rest(t, self.pos(), texts(items@)) == list_rest(t, q0, Seq::empty()),
                paren_list(old(self).toks(), old(self).lows(), old(self).pos()) == list_rest(t, q0, Seq::empty()),
            decreases self.tokens.len() - self.pos,
        {
            proof {
                lemma_texts_len(self.tokens@);
                reveal_strlit(")");
                reveal_strlit(",");
            }
            if self.pos >= self.tokens.len() {
                return Err(String::from_str("Syntax error: unclosed parenthesis"));
            }
            let i = self.pos;
            assert(t[i as int] == self.tokens@[i as int]@);
            self.pos = self.pos + 1;
            if same_text(self.tokens[i].as_str(), ")") {
                return Ok(items);
            } else if !same_text(self.tokens[i].as_str(), ",") {
                let item = self.tokens[i].clone();
                proof { lemma_texts_push(items@, item); }
                items.push(item);
            }
        }
    }

    /// Reads `name , name ...`, up to the first name not followed by a comma.
    pub fn parse_column_list(&mut self) -> (r: Result<Vec<String>, String>)
        requires
            old(self).wf(),
        ensures
            final(self).same_input(old(self)),
            match column_rest(old(self).toks(), old(self).pos(), Seq::empty()) {
                Ok((names, q)) => r matches Ok(v) && texts(v@) == names && final(self).pos() == q,
                Err(e) => r matches Err(m) && m@ == e,
            },
    {
        let ghost t = self.toks();
        let ghost p0 = self.pos();
        let mut cols: Vec<String> = Vec::new();
        assert(texts(cols@) =~= Seq::<Seq<char>>::empty());
        loop
            invariant
                self.same_input(old(self)),
                t == self.toks(),
                column_rest(t, self.pos(), texts(cols@)) == column_rest(t, p0, Seq::empty()),
                p0 == old(self).pos(),
                t == old(self).toks(),
            decreases self.tokens.len() - self.pos,
        {
            proof {
                lemma_texts_len(self.tokens@);
                reveal_strlit(",");
            }
            let ghost p = self.pos();
            let col = match self.expect_any("column name") {
                Err(e) => return Err(e),
                Ok(c) => c,
            };
            proof { lemma_texts_push(cols@, col); }
            cols.push(col);
            if self.pos < self.tokens.len() && same_text(self.tokens[self.pos].as_str(), ",") {
                assert(t[p + 1] == self.tokens@[p + 1]@);
                self.pos = self.pos + 1;
            } else {
                return Ok(cols);
            }
        }
    }

    /// Reads an optional `WHERE column = value` clause.
    pub fn parse_where(&mut self) -> (r: Result<Option<Condition>, String>)
        requires
            old(self).wf(),
        ensures
            final(self).same_input(old(self)),
            match where_clause(old(self).toks(), old(self).lows(), old(self).pos()) {
                Ok((c, q)) => r matches Ok(cond) && condition_view(cond) == c && final(self).pos() == q,
                Err(e) => r matches Err(m) && m@ == e,
            },
    {
        proof {
            lemma_texts_len(self.tokens@);
            lemma_texts_len(self.lowered@);
        }
        if self.pos < self.tokens.len() && same_text(self.lowered[self.pos].as_str(), "where") {
            self.pos = self.pos + 1;
            let column = match self.expect_any("column name") {
                Err(e) => return Err(e),
                Ok(c) => c,
            };
            match self.expect_word("=", "=") {
                Err(e) => return Err(e),
                Ok(()) => {},
            }
            let value = match self.expect_any("value") {
                Err(e) => return Err(e),
                Ok(v) => v,
            };
            Ok(Some(Condition { column, value }))
        } else {
            Ok(None)
        }
    }

    /// Reads the rest of a `SELECT` statement.
    pub fn parse_select(&mut self) -> (r: Result<Statement, String>)
        requires
            old(self).wf(),
        ensures
            final(self).same_input(old(self)),
            parsed(r) == select_rest(old(self).toks(), old(self).lows(), old(self).pos()),
    {
        let columns = match self.parse_column_list() {
            Err(e) => return Err(e),
            Ok(c) => c,
        };
        match self.expect_word("from", "from") {
            Err(e) => return Err(e),
            Ok(()) => {},
        }
        let table = match self.expect_any("table name") {
            Err(e) => return Err(e),
            Ok(t) => t,
        };
        let condition = match self.parse_where() {
            Err(e) => return Err(e),
            Ok(c) => c,
        };
        Ok(Statement::Select { table, columns, condition })
    }

    /// Reads the rest of an `INSERT` statement.
    pub fn parse_insert(&mut self) -> (r: Result<Statement, String>)
        requires
            old(self).wf(),
        ensures
            final(self).same_input(old(self)),
            parsed(r) == insert_rest(old(self).toks(), old(self).lows(), old(self).pos()),
    {
        match self.expect_word("into", "into") {
            Err(e) => return Err(e),
            Ok(()) => {},
        }
        let table = match self.expect_any("table name") {
            Err(e) => return Err(e),
            Ok(t) => t,
        };
        let opens = match self.peek() {
            Some(tok) => same_text(tok, "("),
            None => false,
        };
        let columns = if opens {
            match self.parse_paren_list() {
                Err(e) => return Err(e),
                Ok(c) => c,
            }
        } else {
            let star = vec![String::from_str("*")];
            assert(texts(star@) =~= seq!["*"@]);
            star
        };
        match self.expect_word("values", "values") {
            Err(e) => return Err(e),
            Ok(()) => {},
        }
        let values = match self.parse_paren_list() {
            Err(e) => return Err(e),
            Ok(v) => v,
        };
        proof {
            lemma_texts_len(columns@);
            lemma_texts_len(values@);
        }
        if opens && columns.len() != values.len() {
            return Err(count_message(columns.len(), values.len()));
        }
        Ok(Statement::Insert { table, columns, values })
    }
}

impl Statement {
    /// Parses a statement from its tokens and their lower-case forms.
    pub fn parse_tokens(tokens: Vec<String>, lowered: Vec<String>) -> (r: Result<Statement, String>)
        requires
            lowered.len() == tokens.len(),
        ensures
            parsed(r) == statement_of(texts(tokens@), texts(lowered@)),
    {
        if tokens.len() == 0 {
            return Err(String::from_str("Empty statement"));
        }
        let is_select = same_text(lowered[0].as_str(), "select");
        let is_insert = same_text(lowered[0].as_str(), "insert");
        let mut unknown = String::from_str("Unknown statement: '");
        unknown.append(lowered[0].as_str());
        unknown.append("'");
        let mut parser = Parser::with_lowered(tokens, lowered);
        parser.pos = 1;
        if is_select {
            parser.parse_select()
        } else if is_insert {
            parser.parse_insert()
        } else {
            Err(unknown)
        }
    }

    /// Parses one line of text into a statement.
    pub fn parse(input: &str) -> (r: Result<Statement, String>)
        ensures
            parsed(r) == parse_text(input@),
    {
        let tokens = tokenize(input);
        let lowered = lower_all(&tokens);
        proof {
            lemma_texts_len(tokens@);
            lemma_texts_len(lowered@);
        }
        Statement::parse_tokens(tokens, lowered)
    }
}

/// An `INSERT` that gives its column list in parentheses parses only when
/// it gives exactly as many values as columns; any other count is a syntax
/// error, so such a statement never reaches storage. Without the list the
/// columns are `["*"]`.
pub proof fn lemma_insert_counts_match(s: Seq<char>)
    ensures
        parse_text(s) matches Ok(StatementView::Insert { columns, values, .. }) ==> {
            &&& tokens_of(s).len() > 3
            &&& tokens_of(s)[3] == "("@ ==> columns.len() == values.len()
            &&& tokens_of(s)[3] != "("@ ==> columns == seq!["*"@]
        },
{
}

} // verus!
