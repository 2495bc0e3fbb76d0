//! The statements that the cache keeps.
use vstd::prelude::*;

verus! {

/// A statement as a value: its text and what the server answered to it.
#[verifier::ext_equal]
pub struct StatementView {
    /// The SQL text.
    pub sql: Seq<char>,
    /// Whether the text is a data definition statement.
    pub ddl: bool,
    /// The server's cursor, or 0 while there is none.
    pub cursor_id: u16,
    /// Whether the statement has been executed on that cursor.
    pub executed: bool,
    /// What the server described of the statement, as it came.
    pub metadata: Seq<u8>,
}

/// A prepared statement: its SQL text, the cursor that the server gave it, and
/// the description that came with the cursor.
#[derive(Debug)]
pub struct Statement {
    sql: String,
    ddl: bool,
    cursor_id: u16,
    executed: bool,
    metadata: Vec<u8>,
}

impl View for Statement {
    type V = StatementView;

    closed spec fn view(&self) -> StatementView {
        StatementView {
            sql: self.sql@,
            ddl: self.ddl,
            cursor_id: self.cursor_id,
            executed: self.executed,
            metadata: self.metadata@,
        }
    }
}

/// A character that separates words: blank, tab, line feed, carriage return.
pub open spec fn is_blank(c: char) -> bool {
    c == ' ' || c == '\t' || c == '\n' || c == '\r'
}

/// A character that a keyword or an identifier can hold.
pub open spec fn is_word_char(c: char) -> bool {
    ||| 'a' <= c <= 'z'
    ||| 'A' <= c <= 'Z'
    ||| '0' <= c <= '9'
    ||| c == '_' || c == '$' || c == '#'
}

/// The first word of `sql` is what stands from `start` up to `end`: blanks alone
/// stand before it, and it reaches as far as its characters go.
pub open spec fn is_first_word(sql: Seq<char>, start: int, end: int) -> bool {
    &&& 0 <= start <= end <= sql.len()
    &&& forall|i: int| 0 <= i < start ==> is_blank(#[trigger] sql[i])
    &&& start < sql.len() ==> !is_blank(sql[start])
    &&& forall|i: int| start <= i < end ==> is_word_char(#[trigger] sql[i])
    &&& end < sql.len() ==> !is_word_char(sql[end])
}

/// `word` is `keyword`, which is in capitals, in capitals or in small letters.
pub open spec fn spells(word: Seq<char>, keyword: Seq<char>) -> bool {
    &&& word.len() == keyword.len()
    &&& forall|i: int|
        0 <= i < word.len() ==> (#[trigger] word[i] == keyword[i] || word[i] as u32 == keyword[i] as u32
            + 32)
}

/// The keywords that begin a data definition statement.
pub open spec fn is_ddl_keyword(word: Seq<char>) -> bool {
    ||| spells(word, "CREATE"@)
    ||| spells(word, "ALTER"@)
    ||| spells(word, "DROP"@)
    ||| spells(word, "TRUNCATE"@)
    ||| spells(word, "GRANT"@)
    ||| spells(word, "REVOKE"@)
    ||| spells(word, "ANALYZE"@)
    ||| spells(word, "AUDIT"@)
    ||| spells(word, "COMMENT"@)
}

/// The text of a data definition statement: its first word is one of the keywords.
pub open spec fn is_ddl_text(sql: Seq<char>) -> bool {
    exists|start: int, end: int|
        #[trigger] is_first_word(sql, start, end) && is_ddl_keyword(sql.subrange(start, end))
}

fn blank(c: char) -> (r: bool)
    ensures
        r == is_blank(c),
{
    c == ' ' || c == '\t' || c == '\n' || c == '\r'
}

fn word_char(c: char) -> (r: bool)
    ensures
        r == is_word_char(c),
{
    ('a' <= c && c <= 'z') || ('A' <= c && c <= 'Z') || ('0' <= c && c <= '9') || c == '_' || c
        == '$' || c == '#'
}

/// Reads the first word of `sql`.
fn first_word(sql: &str) -> (word: Vec<char>)
    ensures
        exists|start: int, end: int|
            #[trigger] is_first_word(sql@, start, end) && word@ == sql@.subrange(start, end),
{
    let mut rest = sql.chars();
    let mut next: Option<char> = rest.next();
    let ghost mut at: int = 0;
    while matches!(next, Some(c) if blank(c))
        invariant
            0 <= at <= sql@.len(),
            next == (if at < sql@.len() { Some(sql@[at]) } else { None }),
            at < sql@.len() ==> vstd::std_specs::iter::IteratorSpec::remaining(&rest) == sql@.skip(at + 1),
            forall|i: int| 0 <= i < at ==> is_blank(#[trigger] sql@[i]),
        decreases sql@.len() - at,
    {
        next = rest.next();
        proof {
            at = at + 1;
        }
    }
    let ghost start: int = at;
    let mut word: Vec<char> = Vec::new();
    loop
        invariant
            0 <= start <= at <= sql@.len(),
            next == (if at < sql@.len() { Some(sql@[at]) } else { None }),
            at < sql@.len() ==> vstd::std_specs::iter::IteratorSpec::remaining(&rest) == sql@.skip(at + 1),
            forall|i: int| 0 <= i < start ==> is_blank(#[trigger] sql@[i]),
            start < sql@.len() ==> !is_blank(sql@[start]),
            forall|i: int| start <= i < at ==> is_word_char(#[trigger] sql@[i]),
            word@ == sql@.subrange(start, at),
        ensures
            is_first_word(sql@, start, at),
        decreases sql@.len() - at,
    {
        match next {
            Some(c) if word_char(c) => {
                word.push(c);
            },
            _ => {
                break;
            },
        }
        next = rest.next();
        proof {
            at = at + 1;
        }
    }
    word
}

/// Tells whether `word` is `keyword`, which is in capitals, whatever its case.
fn is_keyword(word: &Vec<char>, keyword: &str) -> (r: bool)
    ensures
        r == spells(word@, keyword@),
{
    let n: usize = keyword.unicode_len();
    if word.len() != n {
        return false;
    }
    let mut i: usize = 0;
    while i < n
        invariant
            i <= n,
            n == word@.len(),
            n == keyword@.len(),
            forall|j: int|
                0 <= j < i ==> (#[trigger] word@[j] == keyword@[j] || word@[j] as u32
                    == keyword@[j] as u32 + 32),
        decreases n - i,
    {
        let c: char = word[i];
        let k: char = keyword.get_char(i);
        if c != k && c as u32 != k as u32 + 32 {
            return false;
        }
        i = i + 1;
    }
    true
}

/// The first word of a text alone tells whether the text is a data definition.
pub proof fn first_word_tells_ddl(sql: Seq<char>, start: int, end: int)
    requires
        is_first_word(sql, start, end),
    ensures
        is_ddl_text(sql) == is_ddl_keyword(sql.subrange(start, end)),
{
    assert forall|s: int, e: int| #[trigger] is_first_word(sql, s, e) implies s == start && e
        == end by {}
}

/// Every text has a first word, be it empty.
proof fn lemma_first_word_exists(sql: Seq<char>) -> (bounds: (int, int))
    ensures
        is_first_word(sql, bounds.0, bounds.1),
{
    let start = lemma_blanks_end(sql, 0);
    let end = lemma_word_ends(sql, start);
    (start, end)
}

/// Where the blanks from `at` on end.
proof fn lemma_blanks_end(sql: Seq<char>, at: int) -> (end: int)
    requires
        0 <= at <= sql.len(),
    ensures
        at <= end <= sql.len(),
        forall|i: int| at <= i < end ==> is_blank(#[trigger] sql[i]),
        end < sql.len() ==> !is_blank(sql[end]),
    decreases sql.len() - at,
{
    if at < sql.len() && is_blank(sql[at]) {
        lemma_blanks_end(sql, at + 1)
    } else {
        at
    }
}

/// Where the word from `at` on ends.
proof fn lemma_word_ends(sql: Seq<char>, at: int) -> (end: int)
    requires
        0 <= at <= sql.len(),
    ensures
        at <= end <= sql.len(),
        forall|i: int| at <= i < end ==> is_word_char(#[trigger] sql[i]),
        end < sql.len() ==> !is_word_char(sql[end]),
    decreases sql.len() - at,
{
    if at < sql.len() && is_word_char(sql[at]) {
        lemma_word_ends(sql, at + 1)
    } else {
        at
    }
}

/// Blanks before a text do not decide whether it is a data definition.
pub proof fn leading_blanks_do_not_matter(blank: char, sql: Seq<char>)
    requires
        blank == ' ' || blank == '\t' || blank == '\n' || blank == '\r',
    ensures
        is_ddl_text(seq![blank] + sql) == is_ddl_text(sql),
{
    let longer = seq![blank] + sql;
    let (start, end) = lemma_first_word_exists(sql);
    assert(is_first_word(longer, start + 1, end + 1)) by {
        assert forall|i: int| 0 <= i < start + 1 implies is_blank(#[trigger] longer[i]) by {
            if i > 0 {
                assert(longer[i] == sql[i - 1]);
            }
        }
        assert forall|i: int| start + 1 <= i < end + 1 implies is_word_char(
            #[trigger] longer[i],
        ) by {
            assert(longer[i] == sql[i - 1]);
        }
    }
    assert(longer.subrange(start + 1, end + 1) =~= sql.subrange(start, end));
    first_word_tells_ddl(sql, start, end);
    first_word_tells_ddl(longer, start + 1, end + 1);
}

/// What follows the first word of a text, after a blank, does not decide whether the text is a
/// data definition.
pub proof fn the_rest_does_not_matter(word: Seq<char>, rest: Seq<char>)
    requires
        forall|i: int| 0 <= i < word.len() ==> 'A' <= #[trigger] word[i] <= 'Z',
        word.len() > 0,
    ensures
        is_ddl_text(word + seq![' '] + rest) == is_ddl_text(word),
{
    let n = word.len() as int;
    let longer = word + seq![' '] + rest;
    assert forall|i: int| 0 <= i < n implies is_word_char(#[trigger] longer[i]) by {
        assert(longer[i] == word[i]);
    }
    assert(longer[n] == ' ');
    assert(longer[0] == word[0]);
    assert(is_first_word(word, 0, n));
    assert(is_first_word(longer, 0, n));
    assert(longer.subrange(0, n) =~= word.subrange(0, n));
    first_word_tells_ddl(word, 0, n);
    first_word_tells_ddl(longer, 0, n);
}

/// A keyword in capitals is spelled in capitals or small letters alike.
proof fn lemma_spells_ignores_case(upper: Seq<char>, mixed: Seq<char>, keyword: Seq<char>)
    requires
        upper.len() == mixed.len(),
        forall|i: int|
            0 <= i < upper.len() ==> #[trigger] mixed[i] == upper[i] || 'A' <= upper[i] <= 'Z'
                && mixed[i] as int == upper[i] as int + 32,
        forall|i: int| 0 <= i < keyword.len() ==> 'A' <= #[trigger] keyword[i] <= 'Z',
    ensures
        spells(upper, keyword) == spells(mixed, keyword),
{
    if spells(upper, keyword) {
        assert forall|i: int| 0 <= i < mixed.len() implies (#[trigger] mixed[i] == keyword[i]
            || mixed[i] as u32 == keyword[i] as u32 + 32) by {
            assert(upper[i] == keyword[i] || upper[i] as u32 == keyword[i] as u32 + 32);
            assert('A' <= keyword[i] <= 'Z');
        }
    }
    if spells(mixed, keyword) {
        assert forall|i: int| 0 <= i < upper.len() implies (#[trigger] upper[i] == keyword[i]
            || upper[i] as u32 == keyword[i] as u32 + 32) by {
            assert(mixed[i] == keyword[i] || mixed[i] as u32 == keyword[i] as u32 + 32);
            assert('A' <= keyword[i] <= 'Z');
        }
    }
}

/// Capitals or small letters do not decide whether a text is a data definition.
pub proof fn case_does_not_matter(upper: Seq<char>, mixed: Seq<char>)
    requires
        upper.len() == mixed.len(),
        forall|i: int|
            0 <= i < upper.len() ==> #[trigger] mixed[i] == upper[i] || 'A' <= upper[i] <= 'Z'
                && mixed[i] as int == upper[i] as int + 32,
    ensures
        is_ddl_text(upper) == is_ddl_text(mixed),
{
    let (start, end) = lemma_first_word_exists(upper);
    assert(is_first_word(mixed, start, end)) by {
        assert forall|i: int| 0 <= i < start implies is_blank(#[trigger] mixed[i]) by {
            assert(is_blank(upper[i]));
        }
        assert forall|i: int| start <= i < end implies is_word_char(#[trigger] mixed[i]) by {
            assert(is_word_char(upper[i]));
        }
    }
    let u = upper.subrange(start, end);
    let m = mixed.subrange(start, end);
    assert forall|i: int| 0 <= i < u.len() implies #[trigger] m[i] == u[i] || 'A' <= u[i] <= 'Z'
        && m[i] as int == u[i] as int + 32 by {
        assert(m[i] == mixed[start + i]);
    }
    lemma_reveal_keywords();
    lemma_spells_ignores_case(u, m, "CREATE"@);
    lemma_spells_ignores_case(u, m, "ALTER"@);
    lemma_spells_ignores_case(u, m, "DROP"@);
    lemma_spells_ignores_case(u, m, "TRUNCATE"@);
    lemma_spells_ignores_case(u, m, "GRANT"@);
    lemma_spells_ignores_case(u, m, "REVOKE"@);
    lemma_spells_ignores_case(u, m, "ANALYZE"@);
    lemma_spells_ignores_case(u, m, "AUDIT"@);
    lemma_spells_ignores_case(u, m, "COMMENT"@);
    first_word_tells_ddl(upper, start, end);
    first_word_tells_ddl(mixed, start, end);
}

/// What the keywords hold, letter by letter.
proof fn lemma_reveal_keywords()
    ensures
        "CREATE"@ == seq!['C', 'R', 'E', 'A', 'T', 'E'],
        "ALTER"@ == seq!['A', 'L', 'T', 'E', 'R'],
        "DROP"@ == seq!['D', 'R', 'O', 'P'],
        "TRUNCATE"@ == seq!['T', 'R', 'U', 'N', 'C', 'A', 'T', 'E'],
        "GRANT"@ == seq!['G', 'R', 'A', 'N', 'T'],
        "REVOKE"@ == seq!['R', 'E', 'V', 'O', 'K', 'E'],
        "ANALYZE"@ == seq!['A', 'N', 'A', 'L', 'Y', 'Z', 'E'],
        "AUDIT"@ == seq!['A', 'U', 'D', 'I', 'T'],
        "COMMENT"@ == seq!['C', 'O', 'M', 'M', 'E', 'N', 'T'],
{
    reveal_strlit("CREATE");
    reveal_strlit("ALTER");
    reveal_strlit("DROP");
    reveal_strlit("TRUNCATE");
    reveal_strlit("GRANT");
    reveal_strlit("REVOKE");
    reveal_strlit("ANALYZE");
    reveal_strlit("AUDIT");
    reveal_strlit("COMMENT");
    assert("CREATE"@ =~= seq!['C', 'R', 'E', 'A', 'T', 'E']);
    assert("ALTER"@ =~= seq!['A', 'L', 'T', 'E', 'R']);
    assert("DROP"@ =~= seq!['D', 'R', 'O', 'P']);
    assert("TRUNCATE"@ =~= seq!['T', 'R', 'U', 'N', 'C', 'A', 'T', 'E']);
    assert("GRANT"@ =~= seq!['G', 'R', 'A', 'N', 'T']);
    assert("REVOKE"@ =~= seq!['R', 'E', 'V', 'O', 'K', 'E']);
    assert("ANALYZE"@ =~= seq!['A', 'N', 'A', 'L', 'Y', 'Z', 'E']);
    assert("AUDIT"@ =~= seq!['A', 'U', 'D', 'I', 'T']);
    assert("COMMENT"@ =~= seq!['C', 'O', 'M', 'M', 'E', 'N', 'T']);
}

/// A word of capitals is, as a text of its own, its first word.
proof fn lemma_word_alone(word: Seq<char>)
    requires
        forall|i: int| 0 <= i < word.len() ==> 'A' <= #[trigger] word[i] <= 'Z',
        word.len() > 0,
    ensures
        is_ddl_text(word) == is_ddl_keyword(word),
{
    assert(is_first_word(word, 0, word.len() as int));
    assert(word.subrange(0, word.len() as int) =~= word);
    first_word_tells_ddl(word, 0, word.len() as int);
}

/// Whatever follows them, the words that define data or rights begin a data definition.
pub proof fn definitions_are_ddl(rest: Seq<char>)
    ensures
        is_ddl_text(seq!['C', 'R', 'E', 'A', 'T', 'E'] + seq![' '] + rest),
        is_ddl_text(seq!['A', 'L', 'T', 'E', 'R'] + seq![' '] + rest),
        is_ddl_text(seq!['D', 'R', 'O', 'P'] + seq![' '] + rest),
        is_ddl_text(seq!['T', 'R', 'U', 'N', 'C', 'A', 'T', 'E'] + seq![' '] + rest),
        is_ddl_text(seq!['G', 'R', 'A', 'N', 'T'] + seq![' '] + rest),
        is_ddl_text(seq!['R', 'E', 'V', 'O', 'K', 'E'] + seq![' '] + rest),
        is_ddl_text(seq!['A', 'N', 'A', 'L', 'Y', 'Z', 'E'] + seq![' '] + rest),
        is_ddl_text(seq!['A', 'U', 'D', 'I', 'T'] + seq![' '] + rest),
        is_ddl_text(seq!['C', 'O', 'M', 'M', 'E', 'N', 'T'] + seq![' '] + rest),
{
    lemma_reveal_keywords();
    lemma_word_alone(seq!['C', 'R', 'E', 'A', 'T', 'E']);
    lemma_word_alone(seq!['A', 'L', 'T', 'E', 'R']);
    lemma_word_alone(seq!['D', 'R', 'O', 'P']);
    lemma_word_alone(seq!['T', 'R', 'U', 'N', 'C', 'A', 'T', 'E']);
    lemma_word_alone(seq!['G', 'R', 'A', 'N', 'T']);
    lemma_word_alone(seq!['R', 'E', 'V', 'O', 'K', 'E']);
    lemma_word_alone(seq!['A', 'N', 'A', 'L', 'Y', 'Z', 'E']);
    lemma_word_alone(seq!['A', 'U', 'D', 'I', 'T']);
    lemma_word_alone(seq!['C', 'O', 'M', 'M', 'E', 'N', 'T']);
    the_rest_does_not_matter(seq!['C', 'R', 'E', 'A', 'T', 'E'], rest);
    the_rest_does_not_matter(seq!['A', 'L', 'T', 'E', 'R'], rest);
    the_rest_does_not_matter(seq!['D', 'R', 'O', 'P'], rest);
    the_rest_does_not_matter(seq!['T', 'R', 'U', 'N', 'C', 'A', 'T', 'E'], rest);
    the_rest_does_not_matter(seq!['G', 'R', 'A', 'N', 'T'], rest);
    the_rest_does_not_matter(seq!['R', 'E', 'V', 'O', 'K', 'E'], rest);
    the_rest_does_not_matter(seq!['A', 'N', 'A', 'L', 'Y', 'Z', 'E'], rest);
    the_rest_does_not_matter(seq!['A', 'U', 'D', 'I', 'T'], rest);
    the_rest_does_not_matter(seq!['C', 'O', 'M', 'M', 'E', 'N', 'T'], rest);
}

/// Whatever follows them, the words that read or change data, or run a block, do not begin a
/// data definition.
pub proof fn queries_are_no_ddl(rest: Seq<char>)
    ensures
        !is_ddl_text(seq!['S', 'E', 'L', 'E', 'C', 'T'] + seq![' '] + rest),
        !is_ddl_text(seq!['W', 'I', 'T', 'H'] + seq![' '] + rest),
        !is_ddl_text(seq!['I', 'N', 'S', 'E', 'R', 'T'] + seq![' '] + rest),
        !is_ddl_text(seq!['U', 'P', 'D', 'A', 'T', 'E'] + seq![' '] + rest),
        !is_ddl_text(seq!['D', 'E', 'L', 'E', 'T', 'E'] + seq![' '] + rest),
        !is_ddl_text(seq!['M', 'E', 'R', 'G', 'E'] + seq![' '] + rest),
        !is_ddl_text(seq!['B', 'E', 'G', 'I', 'N'] + seq![' '] + rest),
        !is_ddl_text(seq!['D', 'E', 'C', 'L', 'A', 'R', 'E'] + seq![' '] + rest),
        !is_ddl_text(seq!['C', 'A', 'L', 'L'] + seq![' '] + rest),
{
    lemma_other_word(seq!['S', 'E', 'L', 'E', 'C', 'T'], rest);
    lemma_other_word(seq!['W', 'I', 'T', 'H'], rest);
    lemma_other_word(seq!['I', 'N', 'S', 'E', 'R', 'T'], rest);
    lemma_other_word(seq!['U', 'P', 'D', 'A', 'T', 'E'], rest);
    lemma_other_word(seq!['D', 'E', 'L', 'E', 'T', 'E'], rest);
    lemma_other_word(seq!['M', 'E', 'R', 'G', 'E'], rest);
    lemma_other_word(seq!['B', 'E', 'G', 'I', 'N'], rest);
    lemma_other_word(seq!['D', 'E', 'C', 'L', 'A', 'R', 'E'], rest);
    lemma_other_word(seq!['C', 'A', 'L', 'L'], rest);
}

/// A word whose first two letters begin no keyword begins no data definition.
proof fn lemma_other_word(word: Seq<char>, rest: Seq<char>)
    requires
        forall|i: int| 0 <= i < word.len() ==> 'A' <= #[trigger] word[i] <= 'Z',
        word.len() > 1,
        !(word[0] == 'C' && (word[1] == 'R' || word[1] == 'O')),
        !(word[0] == 'A' && (word[1] == 'L' || word[1] == 'N' || word[1] == 'U')),
        !(word[0] == 'D' && word[1] == 'R'),
        !(word[0] == 'T' && word[1] == 'R'),
        !(word[0] == 'G' && word[1] == 'R'),
        !(word[0] == 'R' && word[1] == 'E'),
    ensures
        !is_ddl_text(word + seq![' '] + rest),
{
    lemma_reveal_keywords();
    lemma_word_alone(word);
    the_rest_does_not_matter(word, rest);
    assert('A' <= word[0] <= 'Z' && 'A' <= word[1] <= 'Z');
}

/// `text` with its small letters made capitals.
pub open spec fn in_capitals(text: Seq<char>) -> Seq<char> {
    text.map_values(
        |c: char|
            if 'a' <= c <= 'z' {
                (c as int - 32) as char
            } else {
                c
            },
    )
}

/// A small letter is the one that stands 32 behind its capital.
proof fn lemma_small_letter(c: char, capital: char)
    requires
        'A' <= capital <= 'Z',
        c as u32 == capital as u32 + 32,
    ensures
        'a' <= c <= 'z',
        (c as int - 32) as char == capital,
{
}

/// A word is a keyword in capitals or small letters exactly where its capitals are the keyword.
proof fn lemma_spells_by_capitals(word: Seq<char>, keyword: Seq<char>)
    requires
        forall|i: int| 0 <= i < keyword.len() ==> 'A' <= #[trigger] keyword[i] <= 'Z',
    ensures
        spells(word, keyword) == (in_capitals(word) == keyword),
{
    let capitals = in_capitals(word);
    if spells(word, keyword) {
        assert forall|i: int| 0 <= i < keyword.len() implies #[trigger] capitals[i] == keyword[i] by {
            assert(word[i] == keyword[i] || word[i] as u32 == keyword[i] as u32 + 32);
            assert('A' <= keyword[i] <= 'Z');
            if word[i] != keyword[i] {
                lemma_small_letter(word[i], keyword[i]);
            }
        }
        assert(capitals =~= keyword);
    }
    if capitals == keyword {
        assert forall|i: int| 0 <= i < word.len() implies (#[trigger] word[i] == keyword[i]
            || word[i] as u32 == keyword[i] as u32 + 32) by {
            assert(capitals[i] == keyword[i]);
        }
    }
}

/// A text that begins with some blanks, if any, and then a word, as far as letters, digits and
/// `_`, `$`, `#` go, is a data definition exactly where the word, in capitals or small letters,
/// is one of the nine that define data or rights.
pub proof fn ddl_by_first_word(blanks: Seq<char>, word: Seq<char>, rest: Seq<char>)
    requires
        forall|i: int|
            0 <= i < blanks.len() ==> (#[trigger] blanks[i] == ' ' || blanks[i] == '\t' || blanks[i]
                == '\n' || blanks[i] == '\r'),
        forall|i: int|
            0 <= i < word.len() ==> ('a' <= #[trigger] word[i] <= 'z' || 'A' <= word[i] <= 'Z' || '0'
                <= word[i] <= '9' || word[i] == '_' || word[i] == '$' || word[i] == '#'),
        rest.len() > 0 ==> !('a' <= rest[0] <= 'z' || 'A' <= rest[0] <= 'Z' || '0' <= rest[0] <= '9'
            || rest[0] == '_' || rest[0] == '$' || rest[0] == '#'),
        word.len() == 0 && rest.len() > 0 ==> !(rest[0] == ' ' || rest[0] == '\t' || rest[0]
            == '\n' || rest[0] == '\r'),
    ensures
        is_ddl_text(blanks + word + rest) <==> {
            let capitals = in_capitals(word);
            ||| capitals == seq!['C', 'R', 'E', 'A', 'T', 'E']
            ||| capitals == seq!['A', 'L', 'T', 'E', 'R']
            ||| capitals == seq!['D', 'R', 'O', 'P']
            ||| capitals == seq!['T', 'R', 'U', 'N', 'C', 'A', 'T', 'E']
            ||| capitals == seq!['G', 'R', 'A', 'N', 'T']
            ||| capitals == seq!['R', 'E', 'V', 'O', 'K', 'E']
            ||| capitals == seq!['A', 'N', 'A', 'L', 'Y', 'Z', 'E']
            ||| capitals == seq!['A', 'U', 'D', 'I', 'T']
            ||| capitals == seq!['C', 'O', 'M', 'M', 'E', 'N', 'T']
        },
{
    let text = blanks + word + rest;
    let start = blanks.len() as int;
    let end = start + word.len();
    assert(is_first_word(text, start, end)) by {
        assert forall|i: int| 0 <= i < start implies is_blank(#[trigger] text[i]) by {
            assert(text[i] == blanks[i]);
        }
        assert forall|i: int| start <= i < end implies is_word_char(#[trigger] text[i]) by {
            assert(text[i] == word[i - start]);
        }
        if end < text.len() {
            assert(text[end] == rest[0]);
        }
        if word.len() > 0 {
            assert(text[start] == word[0]);
        }
    }
    assert(text.subrange(start, end) =~= word);
    first_word_tells_ddl(text, start, end);
    lemma_reveal_keywords();
    lemma_spells_by_capitals(word, "CREATE"@);
    lemma_spells_by_capitals(word, "ALTER"@);
    lemma_spells_by_capitals(word, "DROP"@);
    lemma_spells_by_capitals(word, "TRUNCATE"@);
    lemma_spells_by_capitals(word, "GRANT"@);
    lemma_spells_by_capitals(word, "REVOKE"@);
    lemma_spells_by_capitals(word, "ANALYZE"@);
    lemma_spells_by_capitals(word, "AUDIT"@);
    lemma_spells_by_capitals(word, "COMMENT"@);
}

/// Tells whether `sql` is a data definition statement.
fn ddl_text(sql: &str) -> (r: bool)
    ensures
        r == is_ddl_text(sql@),
{
    let word = first_word(sql);
    let r = is_keyword(&word, "CREATE") || is_keyword(&word, "ALTER") || is_keyword(&word, "DROP")
        || is_keyword(&word, "TRUNCATE") || is_keyword(&word, "GRANT") || is_keyword(&word, "REVOKE")
        || is_keyword(&word, "ANALYZE") || is_keyword(&word, "AUDIT") || is_keyword(
        &word,
        "COMMENT",
    );
    proof {
        let (s, e) = choose|start: int, end: int| #[trigger]
            is_first_word(sql@, start, end) && word@ == sql@.subrange(start, end);
        first_word_tells_ddl(sql@, s, e);
    }
    r
}

impl Statement {
    /// Makes a statement of the text `sql` that no server has seen yet.
    pub fn new(sql: &str) -> (r: Self)
        ensures
            r@ == (StatementView {
                sql: sql@,
                ddl: is_ddl_text(sql@),
                cursor_id: 0,
                executed: false,
                metadata: Seq::<u8>::empty(),
            }),
    {
        Statement {
            sql: sql.to_owned(),
            ddl: ddl_text(sql),
            cursor_id: 0,
            executed: false,
            metadata: Vec::new(),
        }
    }

    /// The SQL text.
    pub fn sql(&self) -> (r: &str)
        ensures
            r@ == self@.sql,
    {
        self.sql.as_str()
    }

    /// Whether this is a data definition statement.
    pub fn is_ddl(&self) -> (r: bool)
        ensures
            r == self@.ddl,
    {
        self.ddl
    }

    /// The server's cursor, or 0 while there is none.
    pub fn cursor_id(&self) -> (r: u16)
        ensures
            r == self@.cursor_id,
    {
        self.cursor_id
    }

    /// Whether the statement has been executed on its cursor.
    pub fn executed(&self) -> (r: bool)
        ensures
            r == self@.executed,
    {
        self.executed
    }

    /// What the server described of the statement.
    pub fn metadata(&self) -> (r: &[u8])
        ensures
            r@ == self@.metadata,
    {
        self.metadata.as_slice()
    }

    /// Sets the server's cursor.
    pub fn set_cursor_id(&mut self, cursor_id: u16)
        ensures
            final(self)@ == (StatementView { cursor_id, ..old(self)@ }),
    {
        self.cursor_id = cursor_id;
    }

    /// Sets whether the statement has been executed.
    pub fn set_executed(&mut self, executed: bool)
        ensures
            final(self)@ == (StatementView { executed, ..old(self)@ }),
    {
        self.executed = executed;
    }

    /// Sets what the server described of the statement.
    pub fn set_metadata(&mut self, metadata: Vec<u8>)
        ensures
            final(self)@ == (StatementView { metadata: metadata@, ..old(self)@ }),
    {
        self.metadata = metadata;
    }

    /// Copies the statement for another execution, with its cursor and its metadata.
    pub fn clone_for_reuse(&self) -> (r: Self)
        ensures
            r@ == self@,
    {
        let r = Statement {
            sql: self.sql.clone(),
            ddl: self.ddl,
            cursor_id: self.cursor_id,
            executed: self.executed,
            metadata: self.metadata.clone(),
        };
        assert(r.metadata@ =~= self.metadata@);
        r
    }
}

} // verus!
