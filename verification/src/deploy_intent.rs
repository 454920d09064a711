//! Intents to change the deployment of components, exchanged as
//! (key, value) text pairs, e.g. key `intent:migrate:UUID` and value
//! `UUID,UUID`.
use vstd::prelude::*;
use crate::ids::{parse_uuid, uuid_parse, uuid_text, uuid_to_string, lemma_uuid_text_chars};
use crate::text::{
    views, split_chars, join_chars, has_char, split_on, join_with, str_equal,
    lemma_split_no_sep, lemma_split_append, lemma_split_join,
};

verus! {

/// Intent to update/change deployment.
pub enum DeployIntent {
    /// The component with the given logical identifier should be migrated
    /// to the given target nodes, if possible.
    Migrate(u128, Vec<u128>),
}

/// Why a (key, value) pair is not a deployment intent.
#[derive(PartialEq, Eq, Structural, Debug, Clone, Copy)]
pub enum IntentError {
    /// The key does not start with `intent`.
    NotAnIntent,
    /// The key has no intent type.
    IllFormed,
    /// The intent type is not known.
    UnknownType,
    /// A migration key does not have exactly three fields.
    WrongFieldCount,
    /// The component identifier is not a UUID.
    InvalidComponent,
    /// A target is not a UUID.
    InvalidTarget,
}

/// Mathematical model of an intent.
pub enum IntentView {
    Migrate(u128, Seq<u128>),
}

impl View for DeployIntent {
    type V = IntentView;

    open spec fn view(&self) -> IntentView {
        match self {
            DeployIntent::Migrate(c, t) => IntentView::Migrate(*c, t@),
        }
    }
}

/// The targets of a migration: the non-empty pieces, each of which must be a
/// UUID.
pub open spec fn parse_targets(pieces: Seq<Seq<char>>) -> Option<Seq<u128>>
    decreases pieces.len(),
{
    if pieces.len() == 0 {
        Some(Seq::<u128>::empty())
    } else {
        match parse_targets(pieces.drop_last()) {
            None => None,
            Some(ts) => if pieces.last().len() == 0 {
                Some(ts)
            } else {
                match uuid_parse(pieces.last()) {
                    Some(u) => Some(ts.push(u)),
                    None => None,
                }
            },
        }
    }
}

/// The intent that a (key, value) pair expresses, or why it expresses none.
pub open spec fn intent_from(key: Seq<char>, value: Seq<char>) -> Result<IntentView, IntentError> {
    let tokens = split_chars(key, ':');
    if tokens[0] != "intent"@ {
        Err(IntentError::NotAnIntent)
    } else if tokens.len() < 2 {
        Err(IntentError::IllFormed)
    } else if tokens[1] != "migrate"@ {
        Err(IntentError::UnknownType)
    } else if tokens.len() != 3 {
        Err(IntentError::WrongFieldCount)
    } else {
        match uuid_parse(tokens[2]) {
            None => Err(IntentError::InvalidComponent),
            Some(c) => match parse_targets(split_chars(value, ',')) {
                None => Err(IntentError::InvalidTarget),
                Some(ts) => Ok(IntentView::Migrate(c, ts)),
            },
        }
    }
}

/// The texts of a sequence of UUIDs.
pub open spec fn uuid_texts(ids: Seq<u128>) -> Seq<Seq<char>> {
    ids.map_values(|u: u128| uuid_text(u))
}

/// Whether uuid's parser reads each UUID of the intent back from its text
/// (as it does for every UUID: `uuid_to_string` states it of each text it
/// makes).
pub open spec fn texts_read_back(i: IntentView) -> bool {
    match i {
        IntentView::Migrate(c, ts) => {
            &&& uuid_parse(uuid_text(c)) == Some(c)
            &&& forall|k: int| 0 <= k < ts.len() ==> uuid_parse(uuid_text(#[trigger] ts[k])) == Some(ts[k])
        },
    }
}

/// The key of an intent.
pub open spec fn intent_key(i: IntentView) -> Seq<char> {
    match i {
        IntentView::Migrate(c, _) => "intent:migrate:"@ + uuid_text(c),
    }
}

/// The value of an intent.
pub open spec fn intent_value(i: IntentView) -> Seq<char> {
    match i {
        IntentView::Migrate(_, ts) => join_chars(uuid_texts(ts), ","@),
    }
}

/// The UUIDs that the targets text of a migration lists.
fn parse_target_list(pieces: &Vec<String>) -> (r: Option<Vec<u128>>)
    ensures
        match r {
            Some(v) => parse_targets(views(pieces@)) == Some(v@),
            None => parse_targets(views(pieces@)) == None::<Seq<u128>>,
        },
{
    let ghost pv = views(pieces@);
    let mut out: Vec<u128> = Vec::new();
    let mut i: usize = 0;
    assert(pv.take(0) =~= Seq::<Seq<char>>::empty());
    while i < pieces.len()
        invariant
            pv == views(pieces@),
            i <= pieces.len(),
            parse_targets(pv.take(i as int)) == Some(out@),
        decreases pieces.len() - i,
    {
        assert(pv.take(i + 1).drop_last() =~= pv.take(i as int));
        assert(pv.take(i + 1).last() == pieces@[i as int]@);
        if pieces[i].as_str().unicode_len() != 0 {
            match parse_uuid(pieces[i].as_str()) {
                Some(u) => out.push(u),
                None => {
                    proof {
                        lemma_parse_targets_none_extends(pv, i as int + 1);
                    }
                    return None;
                },
            }
        }
        i = i + 1;
    }
    assert(pv.take(pieces.len() as int) =~= pv);
    Some(out)
}

/// Once a prefix of the pieces fails, all of them fail.
proof fn lemma_parse_targets_none_extends(pieces: Seq<Seq<char>>, k: int)
    requires
        0 <= k <= pieces.len(),
        parse_targets(pieces.take(k)) == None::<Seq<u128>>,
    ensures
        parse_targets(pieces) == None::<Seq<u128>>,
    decreases pieces.len() - k,
{
    if k < pieces.len() {
        assert(pieces.take(k + 1).drop_last() =~= pieces.take(k));
        lemma_parse_targets_none_extends(pieces, k + 1);
    } else {
        assert(pieces.take(k) =~= pieces);
    }
}

/// The texts of a vector of UUIDs.
pub fn uuid_strings(ids: &Vec<u128>) -> (r: Vec<String>)
    ensures
        views(r@) == uuid_texts(ids@),
        forall|k: int| 0 <= k < ids@.len() ==> uuid_parse(uuid_text(#[trigger] ids@[k])) == Some(ids@[k]),
{
    let mut out: Vec<String> = Vec::new();
    let mut i: usize = 0;
    while i < ids.len()
        invariant
            i <= ids.len(),
            views(out@) =~= uuid_texts(ids@).take(i as int),
            forall|k: int| 0 <= k < i ==> uuid_parse(uuid_text(#[trigger] ids@[k])) == Some(ids@[k]),
        decreases ids.len() - i,
    {
        let ghost before = out@;
        let s = uuid_to_string(ids[i]);
        out.push(s);
        assert(views(out@) =~= views(before).push(s@));
        assert(uuid_texts(ids@).take(i + 1) =~= uuid_texts(ids@).take(i as int).push(uuid_text(ids@[i as int])));
        i = i + 1;
    }
    assert(uuid_texts(ids@).take(ids.len() as int) =~= uuid_texts(ids@));
    out
}

impl DeployIntent {
    /// Read an intent from its key and value.
    pub fn new(key: &str, value: &str) -> (r: Result<DeployIntent, IntentError>)
        ensures
            match r {
                Ok(i) => intent_from(key@, value@) == Ok::<IntentView, IntentError>(i@),
                Err(e) => intent_from(key@, value@) == Err::<IntentView, IntentError>(e),
            },
    {
        let tokens = split_on(key, ':');
        proof {
            crate::text::lemma_split_nonempty(key@, ':');
        }
        assert(views(tokens@)[0] == tokens@[0]@);
        if !str_equal(tokens[0].as_str(), "intent") {
            return Err(IntentError::NotAnIntent);
        }
        if tokens.len() < 2 {
            return Err(IntentError::IllFormed);
        }
        assert(views(tokens@)[1] == tokens@[1]@);
        if !str_equal(tokens[1].as_str(), "migrate") {
            return Err(IntentError::UnknownType);
        }
        if tokens.len() != 3 {
            return Err(IntentError::WrongFieldCount);
        }
        assert(views(tokens@)[2] == tokens@[2]@);
        let component = match parse_uuid(tokens[2].as_str()) {
            Some(c) => c,
            None => {
                return Err(IntentError::InvalidComponent);
            },
        };
        match parse_target_list(&split_on(value, ',')) {
            Some(targets) => Ok(DeployIntent::Migrate(component, targets)),
            None => Err(IntentError::InvalidTarget),
        }
    }

    /// The key of this intent: `intent:migrate:` and the component's UUID.
    pub fn key(&self) -> (r: String)
        ensures
            r@ == intent_key(self@),
            match self@ {
                IntentView::Migrate(c, _) => uuid_parse(uuid_text(c)) == Some(c),
            },
    {
        match self {
            DeployIntent::Migrate(component, _) => {
                let mut s = String::from_str("intent:migrate:");
                let c = uuid_to_string(*component);
                s.append(c.as_str());
                s
            },
        }
    }

    /// The value of this intent: the targets' UUIDs, comma-separated.
    pub fn value(&self) -> (r: String)
        ensures
            r@ == intent_value(self@),
            match self@ {
                IntentView::Migrate(_, ts) => forall|k: int| 0 <= k < ts.len() ==> uuid_parse(uuid_text(#[trigger] ts[k])) == Some(ts[k]),
            },
    {
        match self {
            DeployIntent::Migrate(_, targets) => join_with(&uuid_strings(targets), ","),
        }
    }
}

/// How an intent is described: `migrate component C to [T1,T2]`.
pub open spec fn intent_text(i: IntentView) -> Seq<char> {
    match i {
        IntentView::Migrate(c, ts) => "migrate component "@ + uuid_text(c) + " to ["@ + join_chars(uuid_texts(ts), ","@)
            + "]"@,
    }
}

impl DeployIntent {
    /// The description of this intent.
    pub fn to_text(&self) -> (r: String)
        ensures
            r@ == intent_text(self@),
    {
        match self {
            DeployIntent::Migrate(component, targets) => {
                let mut s = String::from_str("migrate component ");
                let c = uuid_to_string(*component);
                s.append(c.as_str());
                s.append(" to [");
                let t = join_with(&uuid_strings(targets), ",");
                s.append(t.as_str());
                s.append("]");
                s
            },
        }
    }
}

/// Pieces of UUID texts hold no comma.
proof fn lemma_uuid_texts_no_comma(ids: Seq<u128>)
    ensures
        forall|i: int| 0 <= i < ids.len() ==> !has_char(#[trigger] uuid_texts(ids)[i], ','),
{
    assert forall|i: int| 0 <= i < ids.len() implies !has_char(#[trigger] uuid_texts(ids)[i], ',') by {
        lemma_uuid_text_chars(ids[i]);
    }
}

/// Reading back the texts of UUIDs gives the UUIDs.
proof fn lemma_parse_targets_texts(ids: Seq<u128>)
    requires
        forall|k: int| 0 <= k < ids.len() ==> uuid_parse(uuid_text(#[trigger] ids[k])) == Some(ids[k]),
    ensures
        parse_targets(uuid_texts(ids)) == Some(ids),
    decreases ids.len(),
{
    if ids.len() > 0 {
        let ids1 = ids.drop_last();
        assert forall|k: int| 0 <= k < ids1.len() implies uuid_parse(uuid_text(#[trigger] ids1[k])) == Some(ids1[k]) by {
            assert(ids1[k] == ids[k]);
        }
        lemma_parse_targets_texts(ids1);
        assert(ids[ids.len() - 1] == ids.last());
        assert(uuid_texts(ids).drop_last() =~= uuid_texts(ids1));
        lemma_uuid_text_chars(ids.last());
        assert(uuid_texts(ids).last() == uuid_text(ids.last()));
        assert(ids1.push(ids.last()) =~= ids);
    } else {
        assert(uuid_texts(ids) =~= Seq::<Seq<char>>::empty());
    }
}

/// An intent is read back from its own key and value.
pub proof fn lemma_intent_roundtrip(i: IntentView)
    requires
        texts_read_back(i),
    ensures
        intent_from(intent_key(i), intent_value(i)) == Ok::<IntentView, IntentError>(i),
{
    match i {
        IntentView::Migrate(c, ts) => {
            reveal_strlit("intent:migrate:");
            reveal_strlit("intent");
            reveal_strlit("migrate");
            reveal_strlit(",");
            let u = uuid_text(c);
            lemma_uuid_text_chars(c);
            assert(!has_char(u, ':'));
            assert(!has_char("intent"@, ':'));
            assert(!has_char("migrate"@, ':'));
            lemma_split_no_sep("intent"@, ':');
            lemma_split_append("intent"@, "migrate"@, ':');
            lemma_split_append("intent"@ + seq![':'] + "migrate"@, u, ':');
            assert("intent:migrate:"@ + u =~= ("intent"@ + seq![':'] + "migrate"@) + seq![':'] + u);
            let tokens = split_chars(intent_key(i), ':');
            assert(tokens =~= seq!["intent"@, "migrate"@, u]);
            let v = intent_value(i);
            assert(","@ =~= seq![',']);
            lemma_parse_targets_texts(ts);
            if ts.len() == 0 {
                assert(uuid_texts(ts) =~= Seq::<Seq<char>>::empty());
                assert(v =~= Seq::<char>::empty());
                assert(split_chars(v, ',') =~= seq![Seq::<char>::empty()]);
                assert(seq![Seq::<char>::empty()].drop_last() =~= Seq::<Seq<char>>::empty());
            } else {
                lemma_uuid_texts_no_comma(ts);
                lemma_split_join(uuid_texts(ts), ',');
            }
        },
    }
}

} // verus!
