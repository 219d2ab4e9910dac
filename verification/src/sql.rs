use vstd::prelude::*;
use crate::error::BindError;
use crate::text::{decimal, from_chars, push_all, push_decimal, push_signed_decimal, signed_decimal, to_chars};

verus! {

/// A value bound to one `?` of a template.
#[derive(Debug, Clone, PartialEq, Eq)]
pub enum Bind {
    /// A string, rendered as a quoted and escaped literal.
    Str(String),
    /// An unsigned number, rendered in decimal.
    UInt(u64),
    /// A signed number, rendered in decimal.
    Int(i64),
    /// The name of a column, a table or a database, rendered between back-ticks, never escaped.
    Identifier(String),
}

/// Whether `c` may stand in a dotted object name.
pub open spec fn is_identifier_char(c: char) -> bool {
    ('a' <= c && c <= 'z') || ('A' <= c && c <= 'Z') || ('0' <= c && c <= '9') || c == '_' || c
        == '.'
}

/// Whether every character of `s` may stand in a dotted object name.
pub open spec fn valid_identifier(s: Seq<char>) -> bool {
    forall|i: int| 0 <= i < s.len() ==> is_identifier_char(#[trigger] s[i])
}

/// What one character becomes inside a string literal.
pub open spec fn escaped_char(c: char) -> Seq<char> {
    if c == '\'' || c == '\\' {
        seq!['\\', c]
    } else {
        seq![c]
    }
}

/// `s` with a backslash before each quote and each backslash.
pub open spec fn escaped(s: Seq<char>) -> Seq<char>
    decreases s.len(),
{
    if s.len() == 0 {
        Seq::empty()
    } else {
        escaped_char(s[0]) + escaped(s.skip(1))
    }
}

/// The string literal that stands for `s`.
pub open spec fn string_literal(s: Seq<char>) -> Seq<char> {
    seq!['\''] + escaped(s) + seq!['\'']
}

/// `s` between back-ticks.
pub open spec fn quoted_identifier(s: Seq<char>) -> Seq<char> {
    seq!['`'] + s + seq!['`']
}

/// What stands between the quotes of a literal, read back: `None` where a quote is not
/// escaped or a backslash escapes nothing.
pub open spec fn unescaped(t: Seq<char>) -> Option<Seq<char>>
    decreases t.len(),
{
    if t.len() == 0 {
        Some(Seq::empty())
    } else if t[0] == '\\' {
        if t.len() < 2 {
            None
        } else {
            match unescaped(t.skip(2)) {
                Some(rest) => Some(seq![t[1]] + rest),
                None => None,
            }
        }
    } else if t[0] == '\'' {
        None
    } else {
        match unescaped(t.skip(1)) {
            Some(rest) => Some(seq![t[0]] + rest),
            None => None,
        }
    }
}

/// `r` with `p` before it.
pub open spec fn option_with_prefix(p: Seq<char>, r: Option<Seq<char>>) -> Option<Seq<char>> {
    match r {
        Some(rest) => Some(p + rest),
        None => None,
    }
}

/// The string that the literal `t` stands for, if `t` is a string literal.
pub open spec fn parsed_literal(t: Seq<char>) -> Option<Seq<char>> {
    if t.len() >= 2 && t[0] == '\'' && t.last() == '\'' {
        unescaped(t.subrange(1, t.len() - 1))
    } else {
        None
    }
}

/// Whether `c` may stand in a dotted object name.
pub fn identifier_char(c: char) -> (r: bool)
    ensures
        r == is_identifier_char(c),
{
    ('a' <= c && c <= 'z') || ('A' <= c && c <= 'Z') || ('0' <= c && c <= '9') || c == '_' || c
        == '.'
}

/// Whether `name` can be bound as an identifier.
pub fn identifier_is_valid(name: &Vec<char>) -> (r: bool)
    ensures
        r == valid_identifier(name@),
{
    let mut i: usize = 0;
    while i < name.len()
        invariant
            i <= name.len(),
            forall|j: int| 0 <= j < i ==> is_identifier_char(#[trigger] name@[j]),
        decreases name.len() - i,
    {
        if !identifier_char(name[i]) {
            return false;
        }
        i += 1;
    }
    true
}

/// Appends the string literal of `s` to `out`.
pub fn push_string_literal(out: &mut Vec<char>, s: &Vec<char>)
    ensures
        final(out)@ == old(out)@ + string_literal(s@),
{
    out.push('\'');
    proof {
        assert(s@.skip(0) =~= s@);
        assert(out@ =~= old(out)@ + seq!['\'']);
    }
    let mut i: usize = 0;
    while i < s.len()
        invariant
            i <= s.len(),
            out@ + escaped(s@.skip(i as int)) == old(out)@ + seq!['\''] + escaped(s@),
        decreases s.len() - i,
    {
        let c = s[i];
        let ghost before = out@;
        proof {
            assert(s@.skip(i as int).skip(1) =~= s@.skip(i + 1));
        }
        if c == '\'' || c == '\\' {
            out.push('\\');
        }
        out.push(c);
        proof {
            assert(out@ =~= before + escaped_char(c));
            assert(out@ + escaped(s@.skip(i + 1)) =~= before + escaped(s@.skip(i as int)));
        }
        i += 1;
    }
    proof {
        assert(escaped(s@.skip(s.len() as int)) =~= Seq::<char>::empty());
        assert(out@ =~= out@ + escaped(s@.skip(s.len() as int)));
    }
    out.push('\'');
    proof {
        assert(out@ =~= old(out)@ + string_literal(s@));
    }
}

/// Reads a string literal back: the string that `text` stands for, or `None` if `text`
/// is no string literal.
pub fn parse_string_literal(text: &str) -> (r: Option<String>)
    ensures
        match parsed_literal(text@) {
            Some(s) => r is Some && r->Some_0@ == s,
            None => r is None,
        },
{
    let t = to_chars(text);
    let n = t.len();
    if n < 2 || t[0] != '\'' || t[n - 1] != '\'' {
        return None;
    }
    let ghost body = t@.subrange(1, n - 1);
    let mut out: Vec<char> = Vec::new();
    let mut i: usize = 1;
    proof {
        assert(body.skip(0) =~= body);
        assert forall|tail: Seq<char>| out@ + tail == tail by {
            assert(out@ + tail =~= tail);
        }
    }
    while i < n - 1
        invariant
            n == t.len(),
            n >= 2,
            1 <= i <= n - 1,
            t@ == text@,
            t@[0] == '\'',
            t@[n - 1] == '\'',
            body == t@.subrange(1, n - 1),
            unescaped(body) == option_with_prefix(out@, unescaped(body.skip(i - 1))),
        decreases n - i,
    {
        let c = t[i];
        let ghost rest = body.skip(i - 1);
        let ghost before = out@;
        proof {
            assert(rest.len() == n - 1 - i);
            assert(rest[0] == c);
        }
        if c == '\\' {
            if i + 1 >= n - 1 {
                return None;
            }
            out.push(t[i + 1]);
            proof {
                assert(rest[1] == t@[i + 1]);
                assert(rest.skip(2) =~= body.skip(i + 1));
                assert forall|tail: Seq<char>| before + (seq![rest[1]] + tail) == out@ + tail by {
                    assert(before + (seq![rest[1]] + tail) =~= out@ + tail);
                }
            }
            i += 2;
        } else if c == '\'' {
            return None;
        } else {
            out.push(c);
            proof {
                assert(rest.skip(1) =~= body.skip(i as int));
                assert forall|tail: Seq<char>| before + (seq![rest[0]] + tail) == out@ + tail by {
                    assert(before + (seq![rest[0]] + tail) =~= out@ + tail);
                }
            }
            i += 1;
        }
    }
    proof {
        assert(body.skip(i - 1).len() == 0);
        assert(out@ + Seq::<char>::empty() =~= out@);
    }
    Some(from_chars(&out))
}

/// A quote or a backslash in a bound string comes back unchanged: the literal of `s`,
/// read back, is `s`.
pub proof fn lemma_literal_round_trip(s: Seq<char>)
    ensures
        parsed_literal(string_literal(s)) == Some(s),
{
    lemma_escaped_round_trip(s);
    let t = string_literal(s);
    assert(t.subrange(1, t.len() - 1) =~= escaped(s));
}

proof fn lemma_escaped_round_trip(s: Seq<char>)
    ensures
        unescaped(escaped(s)) == Some(s),
    decreases s.len(),
{
    if s.len() == 0 {
    } else {
        let c = s[0];
        let e = escaped(s);
        lemma_escaped_round_trip(s.skip(1));
        if c == '\'' || c == '\\' {
            assert(e.skip(2) =~= escaped(s.skip(1)));
            assert(e[1] == c);
        } else {
            assert(e.skip(1) =~= escaped(s.skip(1)));
        }
        assert(seq![c] + s.skip(1) =~= s);
    }
}

impl Bind {
    /// The text that this argument becomes in a query, or why it has none.
    pub open spec fn rendered(self) -> Result<Seq<char>, BindError> {
        match self {
            Bind::Str(s) => Ok(string_literal(s@)),
            Bind::UInt(n) => Ok(decimal(n as nat)),
            Bind::Int(n) => Ok(signed_decimal(n as int)),
            Bind::Identifier(name) => if valid_identifier(name@) {
                Ok(quoted_identifier(name@))
            } else {
                Err(BindError::InvalidIdentifier)
            },
        }
    }

    /// Appends the argument's text to `out`; an identifier with a character that no object
    /// name may hold is refused and leaves `out` as it was.
    pub fn render_into(&self, out: &mut Vec<char>) -> (r: Result<(), BindError>)
        ensures
            match self.rendered() {
                Ok(t) => r is Ok && final(out)@ == old(out)@ + t,
                Err(e) => r == Err::<(), BindError>(e) && final(out)@ == old(out)@,
            },
    {
        match self {
            Bind::Str(s) => {
                let chars = to_chars(s.as_str());
                push_string_literal(out, &chars);
                Ok(())
            },
            Bind::UInt(n) => {
                push_decimal(out, *n);
                Ok(())
            },
            Bind::Int(n) => {
                push_signed_decimal(out, *n);
                Ok(())
            },
            Bind::Identifier(name) => {
                let chars = to_chars(name.as_str());
                if !identifier_is_valid(&chars) {
                    return Err(BindError::InvalidIdentifier);
                }
                out.push('`');
                push_all(out, &chars);
                out.push('`');
                proof {
                    assert(out@ =~= old(out)@ + quoted_identifier(name@));
                }
                Ok(())
            },
        }
    }
}

/// Whether the reserved placeholder `?fields` stands at `i` in `t`.
pub open spec fn fields_at(t: Seq<char>, i: int) -> bool {
    &&& 0 <= i
    &&& i + 7 <= t.len()
    &&& t[i] == '?'
    &&& t[i + 1] == 'f'
    &&& t[i + 2] == 'i'
    &&& t[i + 3] == 'e'
    &&& t[i + 4] == 'l'
    &&& t[i + 5] == 'd'
    &&& t[i + 6] == 's'
}

/// `r` with `p` before its text.
pub open spec fn with_prefix(p: Seq<char>, r: Result<Seq<char>, BindError>) -> Result<
    Seq<char>,
    BindError,
> {
    match r {
        Ok(rest) => Ok(p + rest),
        Err(e) => Err(e),
    }
}

/// The text of the template `t` from position `i` on, with the arguments from `k` on put
/// in place of its `?`, from left to right, and `fields` in place of each `?fields`; or the
/// first failure met on the way.
pub open spec fn rendered_from(
    t: Seq<char>,
    fields: Option<Seq<char>>,
    args: Seq<Bind>,
    i: int,
    k: int,
) -> Result<Seq<char>, BindError>
    decreases t.len() - i,
{
    if i < 0 || i >= t.len() {
        if k >= args.len() {
            Ok(Seq::empty())
        } else {
            Err(BindError::UnusedArguments)
        }
    } else if t[i] != '?' {
        with_prefix(seq![t[i]], rendered_from(t, fields, args, i + 1, k))
    } else if fields_at(t, i) {
        match fields {
            None => Err(BindError::UnboundFields),
            Some(list) => with_prefix(list, rendered_from(t, fields, args, i + 7, k)),
        }
    } else if k < 0 || k >= args.len() {
        Err(BindError::MissingArgument)
    } else {
        match args[k].rendered() {
            Err(e) => Err(e),
            Ok(text) => with_prefix(text, rendered_from(t, fields, args, i + 1, k + 1)),
        }
    }
}

/// The number of `?` in `t` from position `i` on that take a bound argument.
pub open spec fn placeholders_from(t: Seq<char>, i: int) -> nat
    decreases t.len() - i,
{
    if i < 0 || i >= t.len() {
        0
    } else if t[i] != '?' {
        placeholders_from(t, i + 1)
    } else if fields_at(t, i) {
        placeholders_from(t, i + 7)
    } else {
        1 + placeholders_from(t, i + 1)
    }
}

/// The number of `?` in `t` that take a bound argument.
pub open spec fn placeholders(t: Seq<char>) -> nat {
    placeholders_from(t, 0)
}

/// Whether `?fields` stands in `t` at or after position `i`.
pub open spec fn mentions_fields(t: Seq<char>, i: int) -> bool {
    exists|j: int| i <= j && fields_at(t, j)
}

/// The names of `columns`, in order, with a comma between two of them.
pub open spec fn joined(columns: Seq<Seq<char>>) -> Seq<char>
    decreases columns.len(),
{
    if columns.len() == 0 {
        Seq::empty()
    } else if columns.len() == 1 {
        columns[0]
    } else {
        joined(columns.drop_last()) + seq![','] + columns.last()
    }
}

/// What a builder holds: the template, the column list bound to `?fields` if any, the
/// text appended behind the template, and the bound arguments in the order of binding.
pub struct SqlView {
    pub template: Seq<char>,
    pub fields: Option<Seq<char>>,
    pub suffix: Seq<char>,
    pub args: Seq<Bind>,
}

impl SqlView {
    /// The final query text, or the first failure met while walking the template.
    pub open spec fn rendered(self) -> Result<Seq<char>, BindError> {
        match rendered_from(self.template, self.fields, self.args, 0, 0) {
            Ok(text) => Ok(text + self.suffix),
            Err(e) => Err(e),
        }
    }
}

/// A query template with the arguments bound to it so far.
#[derive(Debug, Clone)]
pub struct SqlBuilder {
    template: Vec<char>,
    fields: Option<Vec<char>>,
    suffix: Vec<char>,
    args: Vec<Bind>,
}

impl View for SqlBuilder {
    type V = SqlView;

    closed spec fn view(&self) -> SqlView {
        SqlView {
            template: self.template@,
            fields: match self.fields {
                Some(list) => Some(list@),
                None => None,
            },
            suffix: self.suffix@,
            args: self.args@,
        }
    }
}

impl SqlBuilder {
    /// A builder for `template`, with nothing bound.
    pub fn new(template: &str) -> (b: SqlBuilder)
        ensures
            b@ == (SqlView {
                template: template@,
                fields: None,
                suffix: Seq::empty(),
                args: Seq::empty(),
            }),
    {
        SqlBuilder {
            template: to_chars(template),
            fields: None,
            suffix: Vec::new(),
            args: Vec::new(),
        }
    }

    /// Binds `value` to the next `?` that has no argument yet. Nothing is looked at here.
    pub fn bind_arg(&mut self, value: Bind)
        ensures
            final(self)@ == (SqlView { args: old(self)@.args.push(value), ..old(self)@ }),
    {
        self.args.push(value);
    }

    /// Binds the names of `columns`, joined by commas in their order, to `?fields`.
    pub fn bind_fields(&mut self, columns: &Vec<String>)
        ensures
            final(self)@ == (SqlView {
                fields: Some(joined(Seq::new(columns@.len(), |i: int| columns@[i]@))),
                ..old(self)@
            }),
    {
        let ghost names = Seq::new(columns@.len(), |i: int| columns@[i]@);
        let mut list: Vec<char> = Vec::new();
        let mut i: usize = 0;
        while i < columns.len()
            invariant
                i <= columns.len(),
                names == Seq::new(columns@.len(), |i: int| columns@[i]@),
                list@ == joined(names.take(i as int)),
            decreases columns.len() - i,
        {
            let name = to_chars(columns[i].as_str());
            let ghost done = names.take(i as int);
            let ghost next = names.take(i + 1);
            proof {
                assert(next.drop_last() =~= done);
                assert(next.last() == name@);
            }
            if i > 0 {
                list.push(',');
            }
            push_all(&mut list, &name);
            proof {
                if i > 0 {
                    assert(list@ =~= joined(done) + seq![','] + name@);
                } else {
                    assert(list@ =~= name@);
                }
            }
            i += 1;
        }
        proof {
            assert(names.take(columns.len() as int) =~= names);
        }
        self.fields = Some(list);
    }

    /// Appends `text` behind the template. A `?` in it is no placeholder.
    pub fn append(&mut self, text: &str)
        ensures
            final(self)@ == (SqlView { suffix: old(self)@.suffix + text@, ..old(self)@ }),
    {
        let chars = to_chars(text);
        push_all(&mut self.suffix, &chars);
    }

    /// Renders the final query text: each `?` of the template replaced, from left to right,
    /// by its argument's text, each `?fields` by the bound column list, the appended text
    /// behind. Fails with the first failure met from the left: a `?` without an argument,
    /// an identifier that is no object name, a `?fields` without a column list, or, at the
    /// end, arguments that no `?` took.
    pub fn finish(self) -> (r: Result<String, BindError>)
        ensures
            match self@.rendered() {
                Ok(text) => r is Ok && r->Ok_0@ == text,
                Err(e) => r == Err::<String, BindError>(e),
            },
    {
        let ghost t = self.template@;
        let ghost fields = self@.fields;
        let ghost args = self.args@;
        let n = self.template.len();
        let mut out: Vec<char> = Vec::new();
        let mut i: usize = 0;
        let mut k: usize = 0;
        proof {
            lemma_prefix_none(rendered_from(t, fields, args, 0, 0));
        }
        while i < n
            invariant
                n == self.template.len(),
                t == self.template@,
                fields == self@.fields,
                args == self.args@,
                i <= n,
                k <= self.args.len(),
                rendered_from(t, fields, args, 0, 0) == with_prefix(
                    out@,
                    rendered_from(t, fields, args, i as int, k as int),
                ),
            decreases n - i,
        {
            let c = self.template[i];
            let ghost before = out@;
            if c != '?' {
                out.push(c);
                proof {
                    lemma_prefix_twice(
                        before,
                        seq![c],
                        rendered_from(t, fields, args, i + 1, k as int),
                    );
                    assert(out@ =~= before + seq![c]);
                }
                i += 1;
            } else if self.has_fields_at(i) {
                match &self.fields {
                    None => {
                        return Err(BindError::UnboundFields);
                    },
                    Some(list) => {
                        push_all(&mut out, list);
                        proof {
                            lemma_prefix_twice(
                                before,
                                list@,
                                rendered_from(t, fields, args, i + 7, k as int),
                            );
                        }
                        i += 7;
                    },
                }
            } else if k >= self.args.len() {
                return Err(BindError::MissingArgument);
            } else {
                match self.args[k].render_into(&mut out) {
                    Err(e) => {
                        return Err(e);
                    },
                    Ok(()) => {
                        proof {
                            lemma_prefix_twice(
                                before,
                                args[k as int].rendered()->Ok_0,
                                rendered_from(t, fields, args, i + 1, k + 1),
                            );
                        }
                        i += 1;
                        k += 1;
                    },
                }
            }
        }
        if k < self.args.len() {
            return Err(BindError::UnusedArguments);
        }
        proof {
            assert(out@ + Seq::<char>::empty() =~= out@);
        }
        push_all(&mut out, &self.suffix);
        Ok(from_chars(&out))
    }

    fn has_fields_at(&self, i: usize) -> (r: bool)
        requires
            i < self.template.len(),
        ensures
            r == fields_at(self.template@, i as int),
    {
        let t = &self.template;
        t.len() - i >= 7 && t[i] == '?' && t[i + 1] == 'f' && t[i + 2] == 'i' && t[i + 3] == 'e'
            && t[i + 4] == 'l' && t[i + 5] == 'd' && t[i + 6] == 's'
    }
}

proof fn lemma_prefix_none(r: Result<Seq<char>, BindError>)
    ensures
        with_prefix(Seq::empty(), r) == r,
{
    if let Ok(text) = r {
        assert(Seq::<char>::empty() + text =~= text);
    }
}

proof fn lemma_prefix_twice(p: Seq<char>, q: Seq<char>, r: Result<Seq<char>, BindError>)
    ensures
        with_prefix(p, with_prefix(q, r)) == with_prefix(p + q, r),
{
    if let Ok(text) = r {
        assert(p + (q + text) =~= (p + q) + text);
    }
}

proof fn lemma_ok_takes_every_argument(
    t: Seq<char>,
    fields: Option<Seq<char>>,
    args: Seq<Bind>,
    i: int,
    k: int,
)
    requires
        0 <= k <= args.len(),
        rendered_from(t, fields, args, i, k) is Ok,
    ensures
        args.len() - k == placeholders_from(t, i),
        forall|j: int| k <= j < args.len() ==> (#[trigger] args[j]).rendered() is Ok,
    decreases t.len() - i,
{
    if i < 0 || i >= t.len() {
    } else if t[i] != '?' {
        lemma_ok_takes_every_argument(t, fields, args, i + 1, k);
    } else if fields_at(t, i) {
        lemma_ok_takes_every_argument(t, fields, args, i + 7, k);
    } else {
        lemma_ok_takes_every_argument(t, fields, args, i + 1, k + 1);
    }
}

proof fn lemma_outcome_by_count(
    t: Seq<char>,
    fields: Option<Seq<char>>,
    args: Seq<Bind>,
    i: int,
    k: int,
)
    requires
        0 <= k <= args.len(),
        0 <= i,
        forall|j: int| 0 <= j < args.len() ==> (#[trigger] args[j]).rendered() is Ok,
        fields is Some || !mentions_fields(t, i),
    ensures
        args.len() - k == placeholders_from(t, i) ==> rendered_from(t, fields, args, i, k) is Ok,
        args.len() - k < placeholders_from(t, i) ==> rendered_from(t, fields, args, i, k) == Err::<
            Seq<char>,
            BindError,
        >(BindError::MissingArgument),
        args.len() - k > placeholders_from(t, i) ==> rendered_from(t, fields, args, i, k) == Err::<
            Seq<char>,
            BindError,
        >(BindError::UnusedArguments),
    decreases t.len() - i,
{
    if i >= t.len() {
    } else if t[i] != '?' {
        assert(mentions_fields(t, i + 1) ==> mentions_fields(t, i));
        lemma_outcome_by_count(t, fields, args, i + 1, k);
    } else if fields_at(t, i) {
        assert(mentions_fields(t, i));
        assert(mentions_fields(t, i + 7) ==> mentions_fields(t, i));
        lemma_outcome_by_count(t, fields, args, i + 7, k);
    } else if k >= args.len() {
    } else {
        assert(mentions_fields(t, i + 1) ==> mentions_fields(t, i));
        lemma_outcome_by_count(t, fields, args, i + 1, k + 1);
    }
}

/// A template whose `?` are not as many as the bound arguments does not render.
pub proof fn lemma_wrong_count_fails(v: SqlView)
    requires
        v.args.len() != placeholders(v.template),
    ensures
        v.rendered() is Err,
{
    if rendered_from(v.template, v.fields, v.args, 0, 0) is Ok {
        lemma_ok_takes_every_argument(v.template, v.fields, v.args, 0, 0);
    }
}

/// Where every bound argument has a text and `?fields`, if the template holds it, has its
/// column list: the template renders if and only if it has as many `?` as arguments were
/// bound; with fewer arguments an argument is missing, with more some are unused.
pub proof fn lemma_count_decides(v: SqlView)
    requires
        forall|j: int| 0 <= j < v.args.len() ==> (#[trigger] v.args[j]).rendered() is Ok,
        v.fields is Some || !mentions_fields(v.template, 0),
    ensures
        v.args.len() == placeholders(v.template) <==> v.rendered() is Ok,
        v.args.len() < placeholders(v.template) ==> v.rendered() == Err::<Seq<char>, BindError>(
            BindError::MissingArgument,
        ),
        v.args.len() > placeholders(v.template) ==> v.rendered() == Err::<Seq<char>, BindError>(
            BindError::UnusedArguments,
        ),
{
    lemma_outcome_by_count(v.template, v.fields, v.args, 0, 0);
}

/// A bound identifier with a character that no object name may hold makes rendering
/// fail, wherever it stands among the arguments.
pub proof fn lemma_invalid_identifier_fails(v: SqlView, k: int, name: String)
    requires
        0 <= k < v.args.len(),
        v.args[k] == Bind::Identifier(name),
        !valid_identifier(name@),
    ensures
        v.rendered() is Err,
{
    if rendered_from(v.template, v.fields, v.args, 0, 0) is Ok {
        lemma_ok_takes_every_argument(v.template, v.fields, v.args, 0, 0);
        assert(v.args[k].rendered() is Ok);
    }
}

} // verus!
