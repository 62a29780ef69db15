//! Message flags: the canonical flag string that the cache stores, and the
//! `STORE` item list that changes flags on the server.

use crate::order::{
    lemma_ranking, lemma_ranking_of_ordered, lex_le, may_precede, positions, rank, ranked,
};
use crate::text::{
    append_chars, chars_to_string, copy_chars, free_of, join, join_with, lemma_split_join,
    lemma_split_pieces, lemma_texts_push, slice_chars, split, split_on, str_chars, texts,
};
use vstd::prelude::*;

verus! {

/// A message flag as the server reports it.
#[derive(Clone, Debug, PartialEq, Eq)]
pub enum Flag {
    Seen,
    Answered,
    Flagged,
    Deleted,
    Draft,
    Recent,
    /// The mailbox accepts new keywords.
    MayCreate,
    /// A keyword that is no system flag.
    Custom(String),
}

/// The name of a flag, without a backslash.
pub open spec fn flag_name(flag: Flag) -> Seq<char> {
    match flag {
        Flag::Seen => "Seen"@,
        Flag::Answered => "Answered"@,
        Flag::Flagged => "Flagged"@,
        Flag::Deleted => "Deleted"@,
        Flag::Draft => "Draft"@,
        Flag::Recent => "Recent"@,
        Flag::MayCreate => "*"@,
        Flag::Custom(name) => name@,
    }
}

/// The names of a list of flags, in order.
pub open spec fn flag_names(flags: Seq<Flag>) -> Seq<Seq<char>> {
    Seq::new(flags.len(), |i: int| flag_name(flags[i]))
}

/// The first position at or after `from` that holds no backslash.
pub open spec fn skip_backslashes(token: Seq<char>, from: int) -> int
    decreases token.len() - from,
{
    if 0 <= from < token.len() && token[from] == '\\' {
        skip_backslashes(token, from + 1)
    } else {
        from
    }
}

/// A token without the backslashes at its start.
pub open spec fn bare(token: Seq<char>) -> Seq<char> {
    token.subrange(skip_backslashes(token, 0), token.len() as int)
}

/// The tokens without their leading backslashes; a token of which nothing
/// is left is dropped.
pub open spec fn bare_tokens(tokens: Seq<Seq<char>>) -> Seq<Seq<char>>
    decreases tokens.len(),
{
    if tokens.len() == 0 {
        Seq::empty()
    } else {
        let before = bare_tokens(tokens.drop_last());
        let token = bare(tokens.last());
        if token.len() == 0 {
            before
        } else {
            before.push(token)
        }
    }
}

/// The tokens in the order of texts. Equal tokens stay in their order.
pub open spec fn arranged(tokens: Seq<Seq<char>>) -> Seq<Seq<char>> {
    Seq::new(tokens.len(), |i: int| tokens[ranked(tokens, false)[i]])
}

/// The canonical form of a comma-separated flag list: the tokens without
/// leading backslashes, empty tokens left out, sorted, joined by commas.
pub open spec fn canonical_flags(s: Seq<char>) -> Seq<char> {
    join_with(arranged(bare_tokens(split_on(s, ','))), ',')
}

/// The canonical flag string of a list of flags.
pub open spec fn flags_text(flags: Seq<Flag>) -> Seq<char> {
    canonical_flags(join_with(flag_names(flags), ','))
}

/// Whether a token is in canonical shape: not empty, no backslash at its
/// start, no comma.
pub open spec fn is_bare(token: Seq<char>) -> bool {
    token.len() > 0 && token[0] != '\\' && free_of(token, ',')
}

proof fn lemma_skip_backslashes(token: Seq<char>, from: int)
    requires
        0 <= from <= token.len(),
    ensures
        from <= skip_backslashes(token, from) <= token.len(),
        skip_backslashes(token, from) < token.len() ==> token[skip_backslashes(token, from)]
            != '\\',
    decreases token.len() - from,
{
    if from < token.len() && token[from] == '\\' {
        lemma_skip_backslashes(token, from + 1);
    }
}

proof fn lemma_bare_tokens(tokens: Seq<Seq<char>>)
    requires
        forall|i: int| 0 <= i < tokens.len() ==> free_of(#[trigger] tokens[i], ','),
    ensures
        forall|i: int|
            0 <= i < bare_tokens(tokens).len() ==> is_bare(#[trigger] bare_tokens(tokens)[i]),
    decreases tokens.len(),
{
    if tokens.len() > 0 {
        let front = tokens.drop_last();
        assert forall|i: int| 0 <= i < front.len() implies free_of(#[trigger] front[i], ',') by {
            assert(front[i] == tokens[i]);
        }
        lemma_bare_tokens(front);
        let before = bare_tokens(front);
        let last = tokens.last();
        assert(free_of(tokens[tokens.len() - 1], ','));
        lemma_skip_backslashes(last, 0);
        let token = bare(last);
        let now = bare_tokens(tokens);
        assert forall|i: int| 0 <= i < now.len() implies is_bare(#[trigger] now[i]) by {
            if i < before.len() {
                assert(now[i] == before[i]);
            } else {
                assert(now[i] == token);
                assert(token[0] == last[skip_backslashes(last, 0)]);
            }
        }
    }
}

proof fn lemma_bare_tokens_fixed(tokens: Seq<Seq<char>>)
    requires
        forall|i: int| 0 <= i < tokens.len() ==> is_bare(#[trigger] tokens[i]),
    ensures
        bare_tokens(tokens) == tokens,
    decreases tokens.len(),
{
    if tokens.len() > 0 {
        let front = tokens.drop_last();
        assert forall|i: int| 0 <= i < front.len() implies is_bare(#[trigger] front[i]) by {
            assert(front[i] == tokens[i]);
        }
        lemma_bare_tokens_fixed(front);
        let last = tokens.last();
        assert(is_bare(tokens[tokens.len() - 1]));
        assert(bare(last) =~= last);
        assert(front.push(last) =~= tokens);
    } else {
        assert(bare_tokens(tokens) =~= tokens);
    }
}

/// The arranged tokens are the given tokens, each in canonical shape if the
/// given ones are, and each comes before or with the next.
pub proof fn lemma_arranged(tokens: Seq<Seq<char>>)
    ensures
        arranged(tokens).len() == tokens.len(),
        forall|i: int|
            0 <= i < tokens.len() ==> 0 <= #[trigger] ranked(tokens, false)[i] < tokens.len(),
        forall|i: int|
            0 <= i < tokens.len() - 1 ==> lex_le(
                #[trigger] arranged(tokens)[i],
                arranged(tokens)[i + 1],
            ),
{
    lemma_ranking(tokens, tokens.len() as int, false);
    let order = ranked(tokens, false);
    assert forall|i: int| 0 <= i < tokens.len() - 1 implies lex_le(
        #[trigger] arranged(tokens)[i],
        arranged(tokens)[i + 1],
    ) by {
        assert(may_precede(tokens, order[i], order[i + 1], false));
    }
}

/// Whether a flag string is in canonical form: the empty string, or tokens
/// in canonical shape, each before or with the next, with commas between
/// them.
pub open spec fn is_canonical(s: Seq<char>) -> bool {
    exists|tokens: Seq<Seq<char>>| #[trigger] in_canonical_order(tokens) && s == join_with(tokens, ',')
}

/// Whether every token is in canonical shape and comes before or with the
/// next one.
pub open spec fn in_canonical_order(tokens: Seq<Seq<char>>) -> bool {
    &&& forall|i: int| 0 <= i < tokens.len() ==> is_bare(#[trigger] tokens[i])
    &&& forall|i: int| 0 <= i < tokens.len() - 1 ==> lex_le(#[trigger] tokens[i], tokens[i + 1])
}

/// Tokens in canonical shape and order, joined by commas, are a flag string
/// that canonicalising leaves as it is.
pub proof fn lemma_canonical_fixed(tokens: Seq<Seq<char>>)
    requires
        in_canonical_order(tokens),
    ensures
        canonical_flags(join_with(tokens, ',')) == join_with(tokens, ','),
{
    let once = join_with(tokens, ',');
    if tokens.len() == 0 {
        let empty = Seq::<char>::empty();
        assert(once =~= empty);
        assert(split_on(once, ',') =~= seq![empty]);
        let single = seq![empty];
        assert(single.drop_last() =~= Seq::<Seq<char>>::empty());
        assert(bare(single.last()) =~= empty);
        assert(bare_tokens(single.drop_last()) =~= Seq::<Seq<char>>::empty());
        assert(bare_tokens(single) =~= Seq::<Seq<char>>::empty());
        assert(arranged(Seq::<Seq<char>>::empty()) =~= tokens);
    } else {
        lemma_split_join(tokens, ',');
        lemma_bare_tokens_fixed(tokens);
        lemma_ranking_of_ordered(tokens, tokens.len() as int);
        assert(arranged(tokens) =~= tokens);
    }
}

/// The canonical form of a flag string is in canonical form.
pub proof fn lemma_canonical_form(s: Seq<char>)
    ensures
        is_canonical(canonical_flags(s)),
{
    let pieces = split_on(s, ',');
    lemma_split_pieces(s, ',');
    let kept = bare_tokens(pieces);
    lemma_bare_tokens(pieces);
    let tokens = arranged(kept);
    lemma_arranged(kept);
    assert forall|i: int| 0 <= i < tokens.len() implies is_bare(#[trigger] tokens[i]) by {
        assert(is_bare(kept[ranked(kept, false)[i]]));
    }
    assert(in_canonical_order(tokens));
}

/// Canonicalising a canonical flag string changes nothing.
pub proof fn lemma_canonical_idempotent(s: Seq<char>)
    ensures
        canonical_flags(canonical_flags(s)) == canonical_flags(s),
{
    lemma_canonical_form(s);
    let tokens = choose|tokens: Seq<Seq<char>>|
        #[trigger] in_canonical_order(tokens) && canonical_flags(s) == join_with(tokens, ',');
    lemma_canonical_fixed(tokens);
}

/// The flag string of a list of flags is canonical: canonicalising it
/// changes nothing.
pub proof fn lemma_flags_text_canonical(flags: Seq<Flag>)
    ensures
        canonical_flags(flags_text(flags)) == flags_text(flags),
{
    lemma_canonical_idempotent(join_with(flag_names(flags), ','));
}

/// A message without flags has the empty flag string.
pub proof fn lemma_flags_text_empty()
    ensures
        flags_text(Seq::<Flag>::empty()) == Seq::<char>::empty(),
{
    let none = Seq::<Seq<char>>::empty();
    assert(flag_names(Seq::<Flag>::empty()) =~= none);
    assert(in_canonical_order(none));
    lemma_canonical_fixed(none);
}

fn strip_backslashes(token: &Vec<char>) -> (res: Vec<char>)
    ensures
        res@ == bare(token@),
{
    let mut at: usize = 0;
    while at < token.len() && token[at] == '\\'
        invariant
            at <= token.len(),
            skip_backslashes(token@, 0) == skip_backslashes(token@, at as int),
        decreases token.len() - at,
    {
        at += 1;
    }
    slice_chars(token, at, token.len())
}

/// The canonical form of a comma-separated flag list.
pub fn canonicalize_chars(s: &Vec<char>) -> (res: Vec<char>)
    ensures
        res@ == canonical_flags(s@),
        is_canonical(res@),
{
    proof {
        lemma_canonical_form(s@);
    }
    let pieces = split(s, ',');
    let ghost all = split_on(s@, ',');
    let mut kept: Vec<Vec<char>> = Vec::new();
    let mut i: usize = 0;
    assert(all.take(0) =~= Seq::<Seq<char>>::empty());
    assert(texts(kept@) =~= bare_tokens(all.take(0)));
    while i < pieces.len()
        invariant
            i <= pieces.len(),
            texts(pieces@) == all,
            texts(kept@) == bare_tokens(all.take(i as int)),
        decreases pieces.len() - i,
    {
        proof {
            assert(all.take(i + 1).drop_last() =~= all.take(i as int));
            assert(all.take(i + 1).last() == pieces@[i as int]@);
        }
        let token = strip_backslashes(&pieces[i]);
        if token.len() > 0 {
            proof {
                lemma_texts_push(kept@, token);
            }
            kept.push(token);
        }
        i += 1;
    }
    assert(all.take(pieces.len() as int) =~= all);
    let order = rank(&kept, false);
    let ghost wanted = arranged(texts(kept@));
    let mut sorted: Vec<Vec<char>> = Vec::new();
    let mut k: usize = 0;
    while k < order.len()
        invariant
            k <= order.len(),
            order.len() == kept.len(),
            positions(order@) == ranked(texts(kept@), false),
            forall|j: int| 0 <= j < order.len() ==> order@[j] < kept.len(),
            wanted == arranged(texts(kept@)),
            texts(sorted@) == wanted.take(k as int),
        decreases order.len() - k,
    {
        let token = copy_chars(&kept[order[k]]);
        proof {
            lemma_texts_push(sorted@, token);
            assert(positions(order@)[k as int] == order@[k as int]);
            assert(wanted.take(k + 1) =~= wanted.take(k as int).push(token@));
        }
        sorted.push(token);
        k += 1;
    }
    assert(wanted.take(order.len() as int) =~= wanted);
    join(&sorted, ',')
}

/// The canonical form of a comma-separated flag list: the tokens without
/// leading backslashes, empty tokens left out, sorted, joined by commas.
pub fn canonicalize_flags(s: &str) -> (res: String)
    ensures
        res@ == canonical_flags(s@),
        is_canonical(res@),
{
    let chars = str_chars(s);
    chars_to_string(&canonicalize_chars(&chars))
}

fn name_of(flag: &Flag) -> (res: Vec<char>)
    ensures
        res@ == flag_name(*flag),
{
    match flag {
        Flag::Seen => str_chars("Seen"),
        Flag::Answered => str_chars("Answered"),
        Flag::Flagged => str_chars("Flagged"),
        Flag::Deleted => str_chars("Deleted"),
        Flag::Draft => str_chars("Draft"),
        Flag::Recent => str_chars("Recent"),
        Flag::MayCreate => str_chars("*"),
        Flag::Custom(name) => str_chars(name.as_str()),
    }
}

/// The canonical flag string of the flags that the server reports for a
/// message.
pub fn flags_to_string(flags: &[Flag]) -> (res: String)
    ensures
        res@ == flags_text(flags@),
        is_canonical(res@),
{
    let mut names: Vec<Vec<char>> = Vec::new();
    let mut i: usize = 0;
    while i < flags.len()
        invariant
            i <= flags.len(),
            texts(names@) == flag_names(flags@).take(i as int),
        decreases flags.len() - i,
    {
        let name = name_of(&flags[i]);
        proof {
            lemma_texts_push(names@, name);
            assert(flag_names(flags@).take(i + 1) =~= flag_names(flags@).take(i as int).push(
                name@,
            ));
        }
        names.push(name);
        i += 1;
    }
    assert(flag_names(flags@).take(flags.len() as int) =~= flag_names(flags@));
    let listed = join(&names, ',');
    chars_to_string(&canonicalize_chars(&listed))
}

/// The tokens, each with a backslash before it.
pub open spec fn with_backslashes(tokens: Seq<Seq<char>>) -> Seq<Seq<char>> {
    Seq::new(tokens.len(), |i: int| seq!['\\'] + tokens[i])
}

/// The item list of a `STORE` that adds or removes the flags of a
/// comma-separated list: `+FLAGS (\a \b)` or `-FLAGS (\a \b)`.
pub open spec fn query_text(flags: Seq<char>, add: bool) -> Seq<char> {
    (if add {
        "+"@
    } else {
        "-"@
    }) + "FLAGS ("@ + join_with(with_backslashes(split_on(flags, ',')), ' ') + ")"@
}

/// Builds the item list of a `STORE` that adds or removes the given flags.
pub fn query(flags: &str, add: bool) -> (res: String)
    ensures
        res@ == query_text(flags@, add),
{
    let mut out: Vec<char> = if add {
        str_chars("+")
    } else {
        str_chars("-")
    };
    crate::text::push_str(&mut out, "FLAGS (");
    let tokens = split(&str_chars(flags), ',');
    let mut marked: Vec<Vec<char>> = Vec::new();
    let mut i: usize = 0;
    while i < tokens.len()
        invariant
            i <= tokens.len(),
            texts(marked@) == with_backslashes(texts(tokens@)).take(i as int),
        decreases tokens.len() - i,
    {
        let mut token: Vec<char> = vec!['\\'];
        assert(token@ =~= seq!['\\']);
        append_chars(&mut token, &tokens[i]);
        proof {
            lemma_texts_push(marked@, token);
            assert(with_backslashes(texts(tokens@)).take(i + 1) =~= with_backslashes(
                texts(tokens@),
            ).take(i as int).push(token@));
        }
        marked.push(token);
        i += 1;
    }
    assert(with_backslashes(texts(tokens@)).take(tokens.len() as int) =~= with_backslashes(
        texts(tokens@),
    ));
    let listed = join(&marked, ' ');
    append_chars(&mut out, &listed);
    crate::text::push_str(&mut out, ")");
    chars_to_string(&out)
}

} // verus!
