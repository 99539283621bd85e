//! The filter-query builder: column references, comparisons of a column
//! with a literal, and the query text that a selection renders.

use vstd::prelude::*;
use crate::text::{
    decimal, lemma_parse_decimal, parse_i32, same_text, spec_decimal, spec_parse_i32,
};

verus! {

/// The six comparisons.
#[derive(Clone, Copy, Debug, PartialEq, Eq)]
pub enum _WhereOperator {
    EQ,
    NE,
    GT,
    GE,
    LT,
    LE,
}

/// The operator that a symbol stands for, if it stands for one.
pub open spec fn spec_of(symbol: Seq<char>) -> Option<_WhereOperator> {
    if symbol == "=="@ {
        Some(_WhereOperator::EQ)
    } else if symbol == "!="@ {
        Some(_WhereOperator::NE)
    } else if symbol == ">"@ {
        Some(_WhereOperator::GT)
    } else if symbol == ">="@ {
        Some(_WhereOperator::GE)
    } else if symbol == "<"@ {
        Some(_WhereOperator::LT)
    } else if symbol == "<="@ {
        Some(_WhereOperator::LE)
    } else {
        None
    }
}

/// A comparison symbol that stands for no operator.
#[derive(Debug, PartialEq, Eq)]
pub struct InvalidOperator {
    pub symbol: String,
}

impl InvalidOperator {
    /// The complaint about the symbol.
    pub fn message(&self) -> (r: String)
        ensures
            r@ == "Invalid operator: "@ + self.symbol@,
    {
        let mut r = String::from_str("Invalid operator: ");
        r.append(self.symbol.as_str());
        r
    }
}

impl _WhereOperator {
    /// The symbol that is written for this operator.
    pub open spec fn symbol(self) -> Seq<char> {
        match self {
            _WhereOperator::EQ => "=="@,
            _WhereOperator::NE => "!="@,
            _WhereOperator::GT => ">"@,
            _WhereOperator::GE => ">="@,
            _WhereOperator::LT => "<"@,
            _WhereOperator::LE => "<="@,
        }
    }

    /// The symbol that is written for this operator.
    pub fn value(&self) -> (r: &'static str)
        ensures
            r@ == self.symbol(),
    {
        match *self {
            _WhereOperator::EQ => "==",
            _WhereOperator::NE => "!=",
            _WhereOperator::GT => ">",
            _WhereOperator::GE => ">=",
            _WhereOperator::LT => "<",
            _WhereOperator::LE => "<=",
        }
    }

    /// Reads an operator from its symbol.
    pub fn of(value: &str) -> (r: Result<Self, InvalidOperator>)
        ensures
            r matches Ok(op) ==> spec_of(value@) == Some(op),
            r matches Err(e) ==> spec_of(value@) is None && e.symbol@ == value@,
    {
        if same_text(value, "==") {
            Ok(_WhereOperator::EQ)
        } else if same_text(value, "!=") {
            Ok(_WhereOperator::NE)
        } else if same_text(value, ">") {
            Ok(_WhereOperator::GT)
        } else if same_text(value, ">=") {
            Ok(_WhereOperator::GE)
        } else if same_text(value, "<") {
            Ok(_WhereOperator::LT)
        } else if same_text(value, "<=") {
            Ok(_WhereOperator::LE)
        } else {
            Err(InvalidOperator { symbol: String::from_str(value) })
        }
    }
}

/// Every operator is read back from the symbol that is written for it.
pub proof fn lemma_symbol_names_operator(op: _WhereOperator)
    ensures
        spec_of(op.symbol()) == Some(op),
{
    reveal_strlit("==");
    reveal_strlit("!=");
    reveal_strlit(">");
    reveal_strlit(">=");
    reveal_strlit("<");
    reveal_strlit("<=");
    assert("=="@.len() == 2 && "=="@[0] == '=');
    assert("!="@.len() == 2 && "!="@[0] == '!');
    assert(">"@.len() == 1 && ">"@[0] == '>');
    assert(">="@.len() == 2 && ">="@[0] == '>');
    assert("<"@.len() == 1 && "<"@[0] == '<');
    assert("<="@.len() == 2 && "<="@[0] == '<');
}

/// A reference to a column by its name.
#[derive(Debug, PartialEq, Eq)]
pub struct _Mapped {
    pub _col_name: String,
}

impl Clone for _Mapped {
    fn clone(&self) -> (r: Self)
        ensures
            r == *self,
    {
        _Mapped { _col_name: self._col_name.clone() }
    }
}

/// A comparison of a column with a literal.
#[derive(Debug, PartialEq, Eq)]
pub struct _WhereClause {
    _left_operand: _Mapped,
    _right_operand: String,
    _operator: _WhereOperator,
}

/// What a `_WhereClause` holds.
pub struct ClauseView {
    pub column: Seq<char>,
    pub literal: Seq<char>,
    pub operator: _WhereOperator,
}

impl View for _WhereClause {
    type V = ClauseView;

    closed spec fn view(&self) -> ClauseView {
        ClauseView {
            column: self._left_operand._col_name@,
            literal: self._right_operand@,
            operator: self._operator,
        }
    }
}

impl _Mapped {
    /// A reference to the column called `col_name`.
    pub fn new(col_name: String) -> (r: Self)
        ensures
            r._col_name == col_name,
    {
        Self { _col_name: col_name }
    }

    /// The comparison `column == value`.
    pub fn __eq__(&mut self, value: String) -> (r: _WhereClause)
        ensures
            *final(self) == *old(self),
            r@ == (ClauseView {
                column: old(self)._col_name@,
                literal: value@,
                operator: _WhereOperator::EQ,
            }),
    {
        _WhereClause {
            _left_operand: self.clone(),
            _right_operand: value,
            _operator: _WhereOperator::EQ,
        }
    }

    /// The comparison `column != value`.
    pub fn __ne__(&mut self, value: String) -> (r: _WhereClause)
        ensures
            *final(self) == *old(self),
            r@ == (ClauseView {
                column: old(self)._col_name@,
                literal: value@,
                operator: _WhereOperator::NE,
            }),
    {
        _WhereClause {
            _left_operand: self.clone(),
            _right_operand: value,
            _operator: _WhereOperator::NE,
        }
    }

    /// The comparison `column > value`.
    pub fn __gt__(&mut self, value: String) -> (r: _WhereClause)
        ensures
            *final(self) == *old(self),
            r@ == (ClauseView {
                column: old(self)._col_name@,
                literal: value@,
                operator: _WhereOperator::GT,
            }),
    {
        _WhereClause {
            _left_operand: self.clone(),
            _right_operand: value,
            _operator: _WhereOperator::GT,
        }
    }

    /// The comparison `column >= value`.
    pub fn __ge__(&mut self, value: String) -> (r: _WhereClause)
        ensures
            *final(self) == *old(self),
            r@ == (ClauseView {
                column: old(self)._col_name@,
                literal: value@,
                operator: _WhereOperator::GE,
            }),
    {
        _WhereClause {
            _left_operand: self.clone(),
            _right_operand: value,
            _operator: _WhereOperator::GE,
        }
    }

    /// The comparison `column < value`.
    pub fn __lt__(&mut self, value: String) -> (r: _WhereClause)
        ensures
            *final(self) == *old(self),
            r@ == (ClauseView {
                column: old(self)._col_name@,
                literal: value@,
                operator: _WhereOperator::LT,
            }),
    {
        _WhereClause {
            _left_operand: self.clone(),
            _right_operand: value,
            _operator: _WhereOperator::LT,
        }
    }

    /// The comparison `column <= value`.
    pub fn __le__(&mut self, value: String) -> (r: _WhereClause)
        ensures
            *final(self) == *old(self),
            r@ == (ClauseView {
                column: old(self)._col_name@,
                literal: value@,
                operator: _WhereOperator::LE,
            }),
    {
        _WhereClause {
            _left_operand: self.clone(),
            _right_operand: value,
            _operator: _WhereOperator::LE,
        }
    }

    /// The name of the column.
    pub fn _get_col_name(&self) -> (r: String)
        ensures
            r@ == self._col_name@,
    {
        self._col_name.clone()
    }
}

impl _WhereClause {
    /// The comparison of the column `left_operand` with the literal `right_operand`.
    pub fn new(left_operand: _Mapped, right_operand: String, operator: _WhereOperator) -> (r: Self)
        ensures
            r@ == (ClauseView {
                column: left_operand._col_name@,
                literal: right_operand@,
                operator,
            }),
    {
        Self { _left_operand: left_operand, _right_operand: right_operand, _operator: operator }
    }

    /// The comparison as text: column, symbol and literal, with a space between.
    pub fn __str__(&self) -> (r: String)
        ensures
            r@ == self@.column + " "@ + self@.operator.symbol() + " "@ + self@.literal,
    {
        let mut r = self._left_operand._col_name.clone();
        r.append(" ");
        r.append(self._operator.value());
        r.append(" ");
        r.append(self._right_operand.as_str());
        r
    }

    /// The column that is compared.
    pub fn get_left_operand(&self) -> (r: _Mapped)
        ensures
            r._col_name@ == self@.column,
    {
        self._left_operand.clone()
    }

    /// The literal that the column is compared with.
    pub fn get_right_operand(&self) -> (r: String)
        ensures
            r@ == self@.literal,
    {
        self._right_operand.clone()
    }

    /// The symbol of the comparison.
    pub fn get_operator_str(&self) -> (r: String)
        ensures
            r@ == self@.operator.symbol(),
    {
        String::from_str(self._operator.value())
    }

    /// The operator of the comparison.
    pub fn get_operator(&self) -> (r: _WhereOperator)
        ensures
            r == self@.operator,
    {
        self._operator
    }
}

/// A literal as the query text shows it: one that spells a 32-bit integer
/// as that integer in decimal, any other between double quotes.
pub open spec fn spec_literal(literal: Seq<char>) -> Seq<char> {
    match spec_parse_i32(literal) {
        Some(v) => spec_decimal(v),
        None => "\""@ + literal + "\""@,
    }
}

/// A literal that is the decimal form of a 32-bit integer is shown as it
/// is, without quotes.
pub proof fn lemma_literal_of_integer(v: int)
    requires
        i32::MIN <= v <= i32::MAX,
    ensures
        spec_literal(spec_decimal(v)) == spec_decimal(v),
{
    lemma_parse_decimal(v);
}

/// The filter clause of one comparison.
pub open spec fn spec_filter(clause: ClauseView) -> Seq<char> {
    " |> filter(fn: (r) => "@ + "r."@ + clause.column + " "@ + clause.operator.symbol() + " "@
        + spec_literal(clause.literal) + ")"@
}

/// The filter clauses of a run of comparisons, one after the other.
pub open spec fn spec_filters(clauses: Seq<ClauseView>) -> Seq<char>
    decreases clauses.len(),
{
    if clauses.len() == 0 {
        Seq::empty()
    } else {
        spec_filters(clauses.drop_last()) + spec_filter(clauses.last())
    }
}

/// The clause that opens a query on a bucket.
pub open spec fn spec_from(name: Seq<char>) -> Seq<char> {
    "from(bucket: \""@ + name + "\")"@
}

/// The clause that bounds a query to the last hour.
pub open spec fn spec_range() -> Seq<char> {
    " |> range(start: -1h)"@
}

/// A selection: the model it reads, its comparisons and its query text so far.
pub struct _Select {
    _select: String,
    _where_clauses: Vec<_WhereClause>,
    _raw_query: String,
}

/// What a `_Select` holds.
pub struct SelectView {
    pub target: Seq<char>,
    pub clauses: Seq<ClauseView>,
    pub text: Seq<char>,
}

/// The views of a run of comparisons, in order.
pub open spec fn clauses_view(clauses: Seq<_WhereClause>) -> Seq<ClauseView> {
    Seq::new(clauses.len(), |i: int| clauses[i]@)
}

impl View for _Select {
    type V = SelectView;

    closed spec fn view(&self) -> SelectView {
        SelectView {
            target: self._select@,
            clauses: clauses_view(self._where_clauses@),
            text: self._raw_query@,
        }
    }
}

/// The filter clause of one comparison.
fn filter_text(clause: &_WhereClause) -> (r: String)
    ensures
        r@ == spec_filter(clause@),
{
    let mut out = String::from_str(" |> filter(fn: (r) => ");
    out.append("r.");
    out.append(clause._left_operand._col_name.as_str());
    out.append(" ");
    out.append(clause._operator.value());
    out.append(" ");
    match parse_i32(clause._right_operand.as_str()) {
        Some(v) => {
            let number = decimal(v);
            out.append(number.as_str());
        },
        None => {
            let mut quoted = String::from_str("\"");
            quoted.append(clause._right_operand.as_str());
            quoted.append("\"");
            out.append(quoted.as_str());
        },
    }
    out.append(")");
    out
}

impl _Select {
    /// A selection on the model called `select`, with no comparison and no text.
    pub fn new(select: String) -> (r: Self)
        ensures
            r@ == (SelectView {
                target: select@,
                clauses: Seq::<ClauseView>::empty(),
                text: Seq::<char>::empty(),
            }),
    {
        let r = Self { _select: select, _where_clauses: Vec::new(), _raw_query: String::new() };
        proof {
            assert(r@.clauses =~= Seq::<ClauseView>::empty());
        }
        r
    }

    /// Adds the comparison of `left_operand` with `right_operand`, where
    /// `operator` is the symbol of an operator; else nothing changes.
    pub fn _where(
        &mut self,
        left_operand: _Mapped,
        right_operand: String,
        operator: String,
    ) -> (r: Result<(), InvalidOperator>)
        ensures
            r is Ok <==> spec_of(operator@) is Some,
            r is Ok ==> final(self)@ == (SelectView {
                clauses: old(self)@.clauses.push(
                    ClauseView {
                        column: left_operand._col_name@,
                        literal: right_operand@,
                        operator: spec_of(operator@)->0,
                    },
                ),
                ..old(self)@
            }),
            r matches Err(e) ==> e.symbol@ == operator@ && final(self)@ == old(self)@,
    {
        match _WhereOperator::of(operator.as_str()) {
            Ok(op) => {
                let clause = _WhereClause {
                    _left_operand: left_operand,
                    _right_operand: right_operand,
                    _operator: op,
                };
                self._where_clauses.push(clause);
                proof {
                    assert(self@.clauses =~= old(self)@.clauses.push(clause@));
                }
                Ok(())
            },
            Err(e) => Err(e),
        }
    }

    /// Starts the query text over with the clause that names the bucket.
    pub fn _create_bucket_str(&mut self, name: String)
        ensures
            final(self)@ == (SelectView { text: spec_from(name@), ..old(self)@ }),
    {
        let mut text = String::from_str("from(bucket: \"");
        text.append(name.as_str());
        text.append("\")");
        self._raw_query = text;
    }

    /// Appends a filter clause for each comparison, in order.
    pub fn _create_filter_str(&mut self)
        ensures
            final(self)@ == (SelectView {
                text: old(self)@.text + spec_filters(old(self)@.clauses),
                ..old(self)@
            }),
    {
        let ghost clauses = self@.clauses;
        let mut out = String::new();
        let mut i: usize = 0;
        while i < self._where_clauses.len()
            invariant
                i <= self._where_clauses.len(),
                clauses == clauses_view(self._where_clauses@),
                out@ == spec_filters(clauses.take(i as int)),
            decreases self._where_clauses.len() - i,
        {
            let piece = filter_text(&self._where_clauses[i]);
            proof {
                assert(clauses.take(i + 1).drop_last() =~= clauses.take(i as int));
                assert(clauses.take(i + 1).last() == self._where_clauses@[i as int]@);
            }
            out.append(piece.as_str());
            i += 1;
        }
        proof {
            assert(clauses.take(i as int) =~= clauses);
        }
        self._raw_query.append(out.as_str());
    }

    /// Appends the clause that bounds the query to the last hour.
    pub fn _create_range_str(&mut self)
        ensures
            final(self)@ == (SelectView { text: old(self)@.text + spec_range(), ..old(self)@ }),
    {
        self._raw_query.append(" |> range(start: -1h)");
    }

    /// Renders the query: the range clause, then the filter clauses.
    pub fn _create_raw_query(&mut self)
        ensures
            final(self)@ == (SelectView {
                text: old(self)@.text + spec_range() + spec_filters(old(self)@.clauses),
                ..old(self)@
            }),
    {
        self._create_range_str();
        self._create_filter_str();
    }

    /// The query text so far.
    pub fn _get_raw_query(&self) -> (r: String)
        ensures
            r@ == self@.text,
    {
        self._raw_query.clone()
    }
}

} // verus!
