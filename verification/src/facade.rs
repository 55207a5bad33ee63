//! Paths in generated code.
//!
//! Macros write paths to the toolkit as if it were called by its own name. An application that
//! reaches it through a crate in front has those paths lead through that crate: the head of a path
//! is replaced, and so are paths inside literals.

use crate::text::{
    begins_with, law_every_occurrence_is_replaced, replace_all, replaced, same_text,
};
use vstd::prelude::*;
use vstd::string::StringExecFns;

verus! {

/// Where the toolkit is found.
#[derive(Debug)]
pub enum FacadePath {
    /// The crate in front is the one that is compiled.
    Itself,
    /// The name of the crate in front.
    Name(String),
}

#[derive(Clone, Copy, Debug, PartialEq, Eq, Structural)]
pub enum Delimiter {
    Parenthesis,
    Brace,
    Bracket,
    Invisible,
}

/// A token of the code. A span is named by a number.
#[derive(Debug)]
pub enum Token {
    Group { delimiter: Delimiter, stream: Vec<Token>, span: u64 },
    Ident { text: String, span: u64 },
    Punct { mark: char, joint: bool, span: u64 },
    Literal(Literal),
}

#[derive(Debug)]
pub struct Literal {
    pub text: String,
    pub span: u64,
}

/// The span of tokens that the macro makes of nothing.
pub const CALL_SITE: u64 = 0;

/// A token, as contracts speak of it.
pub enum TokenModel {
    Group { delimiter: Delimiter, stream: Seq<TokenModel>, span: u64 },
    Ident { text: Seq<char>, span: u64 },
    Punct { mark: char, joint: bool, span: u64 },
    Literal { text: Seq<char>, span: u64 },
}

impl Token {
    pub open spec fn model(self) -> TokenModel
        decreases self,
    {
        match self {
            Token::Group { delimiter, stream, span } => TokenModel::Group {
                delimiter,
                stream: token_models(stream@),
                span,
            },
            Token::Ident { text, span } => TokenModel::Ident { text: text@, span },
            Token::Punct { mark, joint, span } => TokenModel::Punct { mark, joint, span },
            Token::Literal(literal) => TokenModel::Literal {
                text: literal.text@,
                span: literal.span,
            },
        }
    }
}

pub open spec fn token_models(tokens: Seq<Token>) -> Seq<TokenModel>
    decreases tokens,
{
    if tokens.len() == 0 {
        seq![]
    } else {
        token_models(tokens.drop_last()).push(tokens.last().model())
    }
}

/// What the lexer made of a text: the literal, where the text is one literal and nothing else.
#[derive(Debug)]
pub struct Lexed {
    pub text: String,
    pub literal: Option<Literal>,
}

/// What the lexer made of a text, by a list of what it was asked. The first entry counts.
pub open spec fn lexed_as(lexed: Seq<Lexed>, text: Seq<char>) -> Option<TokenModel>
    decreases lexed.len(),
{
    if lexed.len() == 0 {
        None
    } else if lexed[0].text@ == text {
        match lexed[0].literal {
            Some(literal) => Some(
                TokenModel::Literal { text: literal.text@, span: literal.span },
            ),
            None => None,
        }
    } else {
        lexed_as(lexed.skip(1), text)
    }
}

/// The token at a place is a colon.
pub open spec fn is_colon(tokens: Seq<Token>, index: int) -> bool {
    &&& 0 <= index < tokens.len()
    &&& tokens[index] matches Token::Punct { mark, .. }
    &&& mark == ':'
}

/// What is at a place is the head of a path: two colons follow.
pub open spec fn heads_path(tokens: Seq<Token>, index: int) -> bool {
    is_colon(tokens, index + 1) && is_colon(tokens, index + 2)
}

/// The tokens for the head of a path to the toolkit, or to its platform part.
pub open spec fn path_head(text: Seq<char>, span: u64, facade: Option<FacadePath>) -> Seq<
    TokenModel,
> {
    let name = match facade {
        Some(FacadePath::Itself) => "crate"@,
        Some(FacadePath::Name(name)) => name@,
        None => text,
    };
    let head = TokenModel::Ident { text: name, span };
    if facade is Some && text == "gpui_platform"@ {
        seq![
            head,
            TokenModel::Punct { mark: ':', joint: true, span: CALL_SITE },
            TokenModel::Punct { mark: ':', joint: false, span: CALL_SITE },
            TokenModel::Ident { text: "platform"@, span },
        ]
    } else {
        seq![head]
    }
}

/// A text with the paths in it led through the crate in front.
pub open spec fn led(text: Seq<char>, facade: FacadePath) -> Seq<char> {
    let (gpui, platform) = match facade {
        FacadePath::Itself => ("crate::"@, "crate::platform::"@),
        FacadePath::Name(name) => (
            "::"@ + name@ + "::"@,
            "::"@ + name@ + "::platform::"@,
        ),
    };
    replaced(replaced(text, "::gpui_platform::"@, platform), "::gpui::"@, gpui)
}

/// The literal for a literal: that of the text with its paths led, where the lexer takes it for one,
/// and else the literal itself.
pub open spec fn literal_for(
    text: Seq<char>,
    span: u64,
    facade: Option<FacadePath>,
    lexed: Seq<Lexed>,
) -> TokenModel {
    let same = TokenModel::Literal { text, span };
    match facade {
        Some(facade) => if led(text, facade) == text {
            same
        } else {
            match lexed_as(lexed, led(text, facade)) {
                Some(literal) => literal,
                None => same,
            }
        },
        None => same,
    }
}

/// The tokens for the token at a place.
pub open spec fn rewritten_at(
    tokens: Seq<Token>,
    index: int,
    facade: Option<FacadePath>,
    lexed: Seq<Lexed>,
) -> Seq<TokenModel>
    decreases tokens, 0int, 0int,
    when 0 <= index < tokens.len()
{
    match tokens[index] {
        Token::Group { delimiter, stream, span } => seq![
            TokenModel::Group {
                delimiter,
                stream: rewritten(stream@, stream@.len() as int, facade, lexed),
                span,
            },
        ],
        Token::Ident { text, span } => if heads_path(tokens, index) && (text@ == "gpui"@ || text@
            == "gpui_platform"@) {
            path_head(text@, span, facade)
        } else {
            seq![TokenModel::Ident { text: text@, span }]
        },
        Token::Punct { mark, joint, span } => seq![TokenModel::Punct { mark, joint, span }],
        Token::Literal(literal) => seq![literal_for(literal.text@, literal.span, facade, lexed)],
    }
}

/// The tokens for the first of some tokens.
pub open spec fn rewritten(
    tokens: Seq<Token>,
    count: int,
    facade: Option<FacadePath>,
    lexed: Seq<Lexed>,
) -> Seq<TokenModel>
    decreases tokens, 1int, count,
    when 0 <= count <= tokens.len()
{
    if count == 0 {
        seq![]
    } else {
        rewritten(tokens, count - 1, facade, lexed) + rewritten_at(
            tokens,
            count - 1,
            facade,
            lexed,
        )
    }
}

fn colon_at(tokens: &Vec<Token>, index: usize) -> (r: bool)
    ensures
        r == is_colon(tokens@, index as int),
{
    if index >= tokens.len() {
        return false;
    }
    match &tokens[index] {
        Token::Punct { mark, .. } => *mark == ':',
        _ => false,
    }
}

/// Whether what is at a place is the head of a path.
pub fn is_path_head(tokens: &Vec<Token>, index: usize) -> (r: bool)
    ensures
        r == heads_path(tokens@, index as int),
{
    let total = tokens.len();
    if index >= total || total - index < 3 {
        return false;
    }
    colon_at(tokens, index + 1) && colon_at(tokens, index + 2)
}

proof fn lemma_models_push(tokens: Seq<Token>, token: Token)
    ensures
        token_models(tokens.push(token)) == token_models(tokens).push(token.model()),
{
    assert(tokens.push(token).drop_last() =~= tokens);
}

/// Writes the head of a path to the toolkit.
pub fn append_path_head(
    output: &mut Vec<Token>,
    text: &String,
    span: u64,
    facade: Option<&FacadePath>,
)
    ensures
        token_models(final(output)@) == token_models(old(output)@) + path_head(
            text@,
            span,
            match facade {
                Some(facade) => Some(*facade),
                None => None,
            },
        ),
{
    let ghost before = output@;
    let ghost models = token_models(before);
    let ghost named = match facade {
        Some(facade) => Some(*facade),
        None => None,
    };
    let name: String = match facade {
        Some(FacadePath::Itself) => "crate".to_owned(),
        Some(FacadePath::Name(name)) => name.clone(),
        None => text.clone(),
    };
    let head = Token::Ident { text: name, span };
    let ghost head_model = head.model();
    output.push(head);
    proof {
        lemma_models_push(before, head);
    }
    if facade.is_some() && same_text(text.as_str(), "gpui_platform") {
        let first = Token::Punct { mark: ':', joint: true, span: CALL_SITE };
        let second = Token::Punct { mark: ':', joint: false, span: CALL_SITE };
        let last = Token::Ident { text: "platform".to_owned(), span };
        proof {
            lemma_models_push(output@, first);
            lemma_models_push(output@.push(first), second);
            lemma_models_push(output@.push(first).push(second), last);
        }
        output.push(first);
        output.push(second);
        output.push(last);
        assert(token_models(output@) =~= models + path_head(text@, span, named));
    } else {
        assert(token_models(output@) =~= models + path_head(text@, span, named));
    }
}

/// A text with the paths in it led through the crate in front.
fn lead(text: &str, facade: &FacadePath) -> (r: String)
    ensures
        r@ == led(text@, *facade),
{
    proof {
        reveal_strlit("::gpui_platform::");
        reveal_strlit("::gpui::");
    }
    let mut gpui: String = String::new();
    let mut platform: String = String::new();
    match facade {
        FacadePath::Itself => {
            gpui = "crate::".to_owned();
            platform = "crate::platform::".to_owned();
        },
        FacadePath::Name(name) => {
            gpui.append("::");
            gpui.append(name.as_str());
            gpui.append("::");
            platform.append("::");
            platform.append(name.as_str());
            platform.append("::platform::");
            assert(gpui@ =~= "::"@ + name@ + "::"@);
            assert(platform@ =~= "::"@ + name@ + "::platform::"@);
        },
    }
    let first = replace_all(text, "::gpui_platform::", platform.as_str());
    replace_all(first.as_str(), "::gpui::", gpui.as_str())
}

/// What the lexer made of a text, if it was asked.
fn find_lexed<'a>(lexed: &'a Vec<Lexed>, text: &str) -> (r: Option<&'a Literal>)
    ensures
        match r {
            Some(literal) => lexed_as(lexed@, text@) == Some(
                TokenModel::Literal { text: literal.text@, span: literal.span },
            ),
            None => lexed_as(lexed@, text@) is None,
        },
{
    let mut i: usize = 0;
    assert(lexed@.skip(0) =~= lexed@);
    while i < lexed.len()
        invariant
            i <= lexed@.len(),
            lexed_as(lexed@, text@) == lexed_as(lexed@.skip(i as int), text@),
        decreases lexed@.len() - i,
    {
        assert(lexed@.skip(i as int).skip(1) =~= lexed@.skip(i + 1));
        if same_text(lexed[i].text.as_str(), text) {
            return match &lexed[i].literal {
                Some(literal) => Some(literal),
                None => None,
            };
        }
        i = i + 1;
    }
    None
}

fn copy_literal(literal: &Literal) -> (r: Literal)
    ensures
        r == *literal,
{
    Literal { text: literal.text.clone(), span: literal.span }
}

/// Leads the paths in a literal. What the lexer is asked is the text with its paths led; where it
/// takes that for anything but one literal, the literal is left as it is.
pub fn rewrite_literal(literal: &Literal, facade: Option<&FacadePath>, lexed: &Vec<Lexed>) -> (r:
    Literal)
    ensures
        (TokenModel::Literal { text: r.text@, span: r.span }) == literal_for(
            literal.text@,
            literal.span,
            match facade {
                Some(facade) => Some(*facade),
                None => None,
            },
            lexed@,
        ),
{
    match facade {
        Some(facade) => {
            let rewritten = lead(literal.text.as_str(), facade);
            if same_text(rewritten.as_str(), literal.text.as_str()) {
                return copy_literal(literal);
            }
            match find_lexed(lexed, rewritten.as_str()) {
                Some(parsed) => copy_literal(parsed),
                None => copy_literal(literal),
            }
        },
        None => copy_literal(literal),
    }
}

/// Leads the paths in code through the crate in front.
pub fn rewrite_stream(tokens: &Vec<Token>, facade: Option<&FacadePath>, lexed: &Vec<Lexed>) -> (r:
    Vec<Token>)
    ensures
        token_models(r@) == rewritten(
            tokens@,
            tokens@.len() as int,
            match facade {
                Some(facade) => Some(*facade),
                None => None,
            },
            lexed@,
        ),
    decreases tokens,
{
    let ghost named = match facade {
        Some(facade) => Some(*facade),
        None => None,
    };
    let mut output: Vec<Token> = Vec::new();
    let mut index: usize = 0;
    assert(token_models(output@) =~= rewritten(tokens@, 0, named, lexed@));
    while index < tokens.len()
        invariant
            index <= tokens@.len(),
            named == (match facade {
                Some(facade) => Some(*facade),
                None => None,
            }),
            token_models(output@) == rewritten(tokens@, index as int, named, lexed@),
        decreases tokens@.len() - index,
    {
        let ghost before = output@;
        let ghost models = token_models(before);
        let ghost here = rewritten_at(tokens@, index as int, named, lexed@);
        match &tokens[index] {
            Token::Group { delimiter, stream, span } => {
                let inner = rewrite_stream(stream, facade, lexed);
                let ghost list = inner@;
                let token = Token::Group { delimiter: *delimiter, stream: inner, span: *span };
                proof {
                    assert(token.model() == (TokenModel::Group {
                        delimiter: *delimiter,
                        stream: token_models(list),
                        span: *span,
                    }));
                    lemma_models_push(before, token);
                    assert(here == seq![token.model()]);
                    assert(models.push(token.model()) =~= models + here);
                }
                output.push(token);
            },
            Token::Ident { text, span } => {
                if is_path_head(tokens, index) && (same_text(text.as_str(), "gpui") || same_text(
                    text.as_str(),
                    "gpui_platform",
                )) {
                    append_path_head(&mut output, text, *span, facade);
                } else {
                    let token = Token::Ident { text: text.clone(), span: *span };
                    proof {
                        lemma_models_push(before, token);
                        assert(here == seq![token.model()]);
                    assert(models.push(token.model()) =~= models + here);
                    }
                    output.push(token);
                }
            },
            Token::Punct { mark, joint, span } => {
                let token = Token::Punct { mark: *mark, joint: *joint, span: *span };
                proof {
                    lemma_models_push(before, token);
                    assert(here == seq![token.model()]);
                    assert(models.push(token.model()) =~= models + here);
                }
                output.push(token);
            },
            Token::Literal(literal) => {
                let token = Token::Literal(rewrite_literal(literal, facade, lexed));
                proof {
                    lemma_models_push(before, token);
                    assert(here == seq![token.model()]);
                    assert(models.push(token.model()) =~= models + here);
                }
                output.push(token);
            },
        }
        assert(token_models(output@) == models + here);
        index = index + 1;
    }
    output
}

// ---- what the lexer is asked -------------------------------------------------------------------

/// The text that the lexer is asked for a literal, if it is asked.
pub open spec fn asked_for(text: Seq<char>, facade: Option<FacadePath>) -> Seq<Seq<char>> {
    match facade {
        Some(facade) => if led(text, facade) == text {
            seq![]
        } else {
            seq![led(text, facade)]
        },
        None => seq![],
    }
}

/// The texts that the lexer is asked for the first of some tokens, in order.
pub open spec fn asked(tokens: Seq<Token>, count: int, facade: Option<FacadePath>) -> Seq<
    Seq<char>,
>
    decreases tokens, count,
    when 0 <= count <= tokens.len()
{
    if count == 0 {
        seq![]
    } else {
        asked(tokens, count - 1, facade) + match tokens[count - 1] {
            Token::Group { stream, .. } => asked(stream@, stream@.len() as int, facade),
            Token::Literal(literal) => asked_for(literal.text@, facade),
            _ => seq![],
        }
    }
}

pub open spec fn texts(list: Seq<String>) -> Seq<Seq<char>> {
    list.map_values(|text: String| text@)
}

/// The texts that the lexer is to be asked before code is rewritten.
pub fn literals_to_lex(tokens: &Vec<Token>, facade: Option<&FacadePath>) -> (r: Vec<String>)
    ensures
        texts(r@) == asked(
            tokens@,
            tokens@.len() as int,
            match facade {
                Some(facade) => Some(*facade),
                None => None,
            },
        ),
    decreases tokens,
{
    let ghost named = match facade {
        Some(facade) => Some(*facade),
        None => None,
    };
    let mut list: Vec<String> = Vec::new();
    let mut index: usize = 0;
    assert(texts(list@) =~= asked(tokens@, 0, named));
    while index < tokens.len()
        invariant
            index <= tokens@.len(),
            named == (match facade {
                Some(facade) => Some(*facade),
                None => None,
            }),
            texts(list@) == asked(tokens@, index as int, named),
        decreases tokens@.len() - index,
    {
        let ghost before = list@;
        match &tokens[index] {
            Token::Group { stream, .. } => {
                let mut inner = literals_to_lex(stream, facade);
                let ghost below = inner@;
                list.append(&mut inner);
                assert(texts(list@) =~= texts(before) + texts(below));
            },
            Token::Literal(literal) => {
                if let Some(facade) = facade {
                    let rewritten = lead(literal.text.as_str(), facade);
                    if !same_text(rewritten.as_str(), literal.text.as_str()) {
                        let ghost text = rewritten@;
                        list.push(rewritten);
                        assert(texts(list@) =~= texts(before) + seq![text]);
                    } else {
                        assert(texts(list@) =~= texts(before) + Seq::<Seq<char>>::empty());
                    }
                } else {
                    assert(texts(list@) =~= texts(before) + Seq::<Seq<char>>::empty());
                }
            },
            _ => {
                assert(texts(list@) =~= texts(before) + Seq::<Seq<char>>::empty());
            },
        }
        index = index + 1;
    }
    list
}

// ---- laws --------------------------------------------------------------------------------------

/// Where there is no crate in front, code is left as it is.
pub proof fn law_without_facade_nothing_changes(tokens: Seq<Token>, count: int, lexed: Seq<Lexed>)
    requires
        0 <= count <= tokens.len(),
    ensures
        rewritten(tokens, count, None, lexed) == token_models(tokens.take(count)),
    decreases tokens, count,
{
    if count == 0 {
        assert(tokens.take(0) =~= Seq::<Token>::empty());
    } else {
        law_without_facade_nothing_changes(tokens, count - 1, lexed);
        assert(tokens.take(count).drop_last() =~= tokens.take(count - 1));
        let token = tokens[count - 1];
        let here = rewritten_at(tokens, count - 1, None, lexed);
        if let Token::Group { stream, .. } = token {
            law_without_facade_nothing_changes(stream@, stream@.len() as int, lexed);
            assert(stream@.take(stream@.len() as int) =~= stream@);
        }
        assert(here == seq![token.model()]);
        assert(token_models(tokens.take(count - 1)).push(token.model()) =~= token_models(
            tokens.take(count - 1),
        ) + here);
    }
}

/// What the lexer makes of texts that it is not asked makes no difference.
pub proof fn law_only_asked_texts_matter(
    tokens: Seq<Token>,
    count: int,
    facade: Option<FacadePath>,
    a: Seq<Lexed>,
    b: Seq<Lexed>,
)
    requires
        0 <= count <= tokens.len(),
        forall|i: int|
            0 <= i < asked(tokens, count, facade).len() ==> lexed_as(
                a,
                #[trigger] asked(tokens, count, facade)[i],
            ) == lexed_as(b, asked(tokens, count, facade)[i]),
    ensures
        rewritten(tokens, count, facade, a) == rewritten(tokens, count, facade, b),
    decreases tokens, count,
{
    if count > 0 {
        let all = asked(tokens, count, facade);
        let before = asked(tokens, count - 1, facade);
        assert forall|i: int| 0 <= i < before.len() implies lexed_as(a, #[trigger] before[i])
            == lexed_as(b, before[i]) by {
            assert(all[i] == before[i]);
        }
        law_only_asked_texts_matter(tokens, count - 1, facade, a, b);
        match tokens[count - 1] {
            Token::Group { stream, .. } => {
                let below = asked(stream@, stream@.len() as int, facade);
                assert forall|i: int| 0 <= i < below.len() implies lexed_as(
                    a,
                    #[trigger] below[i],
                ) == lexed_as(b, below[i]) by {
                    assert(all[before.len() + i] == below[i]);
                }
                law_only_asked_texts_matter(stream@, stream@.len() as int, facade, a, b);
            },
            Token::Literal(literal) => {
                let below = asked_for(literal.text@, facade);
                if below.len() > 0 {
                    assert(all[before.len() as int] == below[0]);
                }
            },
            _ => {},
        }
        assert(rewritten_at(tokens, count - 1, facade, a) == rewritten_at(
            tokens,
            count - 1,
            facade,
            b,
        ));
    }
}

/// A colon.
pub open spec fn colon(token: Token) -> bool {
    token is Punct && token->mark == ':'
}

/// The name of the toolkit is replaced where two colons follow it: by `crate`, or by the name of the
/// crate in front. For the name of its platform part, the path goes on to `platform` behind that.
pub proof fn law_heads_of_paths_are_led(
    tokens: Seq<Token>,
    index: int,
    facade: FacadePath,
    lexed: Seq<Lexed>,
)
    requires
        0 <= index < tokens.len() - 2,
        tokens[index] is Ident,
        colon(tokens[index + 1]),
        colon(tokens[index + 2]),
    ensures
        ({
            let result = rewritten_at(tokens, index, Some(facade), lexed);
            let text = tokens[index]->Ident_text@;
            let span = tokens[index]->Ident_span;
            &&& text == "gpui"@ || text == "gpui_platform"@ ==> {
                &&& result[0] is Ident
                &&& result[0]->Ident_span == span
                &&& facade is Itself ==> result[0]->Ident_text == "crate"@
                &&& facade matches FacadePath::Name(name) ==> result[0]->Ident_text == name@
            }
            &&& text == "gpui"@ ==> result.len() == 1
            &&& text == "gpui_platform"@ ==> {
                &&& result.len() == 4
                &&& result[1] matches TokenModel::Punct { mark, joint, .. } && mark == ':' && joint
                &&& result[2] matches TokenModel::Punct { mark, joint, .. } && mark == ':' && !joint
                &&& result[3] == TokenModel::Ident { text: "platform"@, span }
            }
            &&& text != "gpui"@ && text != "gpui_platform"@ ==> result == seq![
                tokens[index].model(),
            ]
        }),
{
    reveal_strlit("gpui");
    reveal_strlit("gpui_platform");
    assert("gpui"@.len() != "gpui_platform"@.len());
    assert(is_colon(tokens, index + 1) && is_colon(tokens, index + 2));
    assert(heads_path(tokens, index));
    let text = tokens[index]->Ident_text;
    let span = tokens[index]->Ident_span;
    assert(tokens[index] == Token::Ident { text, span });
    let result = rewritten_at(tokens, index, Some(facade), lexed);
    if text@ == "gpui"@ || text@ == "gpui_platform"@ {
        assert(result == path_head(text@, span, Some(facade)));
    } else {
        assert(result == seq![TokenModel::Ident { text: text@, span }]);
    }
}

/// A name that no two colons follow heads no path and stays, as every mark does. A group keeps its
/// delimiters, and what is in it is treated by itself.
pub proof fn law_other_tokens_stay(
    tokens: Seq<Token>,
    index: int,
    facade: Option<FacadePath>,
    lexed: Seq<Lexed>,
)
    requires
        0 <= index < tokens.len(),
    ensures
        tokens[index] is Ident && (index + 2 >= tokens.len() || !colon(tokens[index + 1]) || !colon(
            tokens[index + 2],
        )) ==> rewritten_at(tokens, index, facade, lexed) == seq![tokens[index].model()],
        tokens[index] is Punct ==> rewritten_at(tokens, index, facade, lexed) == seq![
            tokens[index].model(),
        ],
        tokens[index] matches Token::Group { delimiter, stream, span } ==> {
            let result = rewritten_at(tokens, index, facade, lexed);
            &&& result.len() == 1
            &&& result[0] is Group
            &&& result[0]->delimiter == delimiter
            &&& result[0]->Group_span == span
            &&& result[0]->stream == rewritten(stream@, stream@.len() as int, facade, lexed)
        },
        tokens[index] is Literal ==> {
            let result = rewritten_at(tokens, index, facade, lexed);
            result.len() == 1 && result[0] is Literal
        },
{
    if tokens[index] is Literal {
        let literal = tokens[index]->Literal_0;
        if let Some(facade) = facade {
            lemma_lexed_literal(lexed, led(literal.text@, facade));
        }
    }
}

proof fn lemma_lexed_literal(lexed: Seq<Lexed>, text: Seq<char>)
    ensures
        lexed_as(lexed, text) matches Some(token) ==> token is Literal,
    decreases lexed.len(),
{
    if lexed.len() > 0 {
        lemma_lexed_literal(lexed.skip(1), text);
    }
}

/// A text does not occur in another.
pub open spec fn is_absent(part: Seq<char>, text: Seq<char>) -> bool {
    forall|i: int| 0 <= i <= text.len() ==> !begins_with(#[trigger] text.skip(i), part)
}

/// The path to the toolkit through the crate in front, and that to its platform part.
pub open spec fn through(facade: FacadePath) -> (Seq<char>, Seq<char>) {
    match facade {
        FacadePath::Itself => ("crate::"@, "crate::platform::"@),
        FacadePath::Name(name) => ("::"@ + name@ + "::"@, "::"@ + name@ + "::platform::"@),
    }
}

/// A path to the toolkit in a literal leads through the crate in front, and so does one to its platform
/// part. A text without such a path stays.
pub proof fn law_paths_in_literals_are_led(facade: FacadePath, front: Seq<char>, back: Seq<char>)
    requires
        is_absent("::gpui::"@, front),
        is_absent("::gpui_platform::"@, front),
    ensures
        led(front, facade) == front,
        is_absent("::gpui_platform::"@, "::gpui::"@ + back) && is_absent("::gpui::"@, back) ==> led(
            "::gpui::"@ + back,
            facade,
        ) == through(facade).0 + back,
        is_absent("::gpui_platform::"@, back) && is_absent(
            "::gpui::"@,
            through(facade).1 + back,
        ) ==> led("::gpui_platform::"@ + back, facade) == through(facade).1 + back,
{
    reveal_strlit("::gpui_platform::");
    reveal_strlit("::gpui::");
    let none = Seq::<char>::empty();
    let to = through(facade);
    let gpui = "::gpui::"@;
    let platform = "::gpui_platform::"@;
    law_every_occurrence_is_replaced(none, platform, to.1, front);
    law_every_occurrence_is_replaced(none, gpui, to.0, front);
    if is_absent(platform, gpui + back) && is_absent(gpui, back) {
        law_every_occurrence_is_replaced(none, platform, to.1, gpui + back);
        law_every_occurrence_is_replaced(none, gpui, to.0, back);
    }
    if is_absent(platform, back) && is_absent(gpui, to.1 + back) {
        law_every_occurrence_is_replaced(none, platform, to.1, back);
        law_every_occurrence_is_replaced(none, gpui, to.0, to.1 + back);
    }
}

/// A literal is replaced by the one that the lexer makes of the text with its paths led, the first time
/// that it was asked. It stays where there is nothing to lead, where the lexer was not asked, and where
/// it found no single literal.
pub proof fn law_literals_are_lexed_anew(
    text: Seq<char>,
    span: u64,
    facade: FacadePath,
    before: Seq<Lexed>,
    entry: Lexed,
    after: Seq<Lexed>,
)
    requires
        forall|i: int| 0 <= i < before.len() ==> (#[trigger] before[i]).text@ != led(text, facade),
    ensures
        literal_for(text, span, None, before) == (TokenModel::Literal { text, span }),
        literal_for(text, span, Some(facade), before) == (TokenModel::Literal { text, span }),
        led(text, facade) == text ==> literal_for(text, span, Some(facade), before + seq![entry] + after)
            == (TokenModel::Literal { text, span }),
        led(text, facade) != text && entry.text@ == led(text, facade) ==> literal_for(
            text,
            span,
            Some(facade),
            before + seq![entry] + after,
        ) == match entry.literal {
            Some(literal) => TokenModel::Literal { text: literal.text@, span: literal.span },
            None => TokenModel::Literal { text, span },
        },
{
    lemma_first_counts(before, entry, after, led(text, facade));
}

proof fn lemma_first_counts(before: Seq<Lexed>, entry: Lexed, after: Seq<Lexed>, text: Seq<char>)
    requires
        forall|i: int| 0 <= i < before.len() ==> (#[trigger] before[i]).text@ != text,
    ensures
        lexed_as(before, text) is None,
        entry.text@ == text ==> lexed_as(before + seq![entry] + after, text)
            == match entry.literal {
            Some(literal) => Some(
                TokenModel::Literal { text: literal.text@, span: literal.span },
            ),
            None => None,
        },
    decreases before.len(),
{
    let all = before + seq![entry] + after;
    if before.len() == 0 {
        assert(all[0] == entry);
    } else {
        let rest = before.skip(1);
        assert(all[0] == before[0]);
        assert(all.skip(1) =~= rest + seq![entry] + after);
        assert forall|i: int| 0 <= i < rest.len() implies (#[trigger] rest[i]).text@ != text by {
            assert(rest[i] == before[i + 1]);
        }
        lemma_first_counts(rest, entry, after, text);
    }
}

/// What contracts say of tokens, they say of the tokens themselves, each in its place.
pub proof fn law_models_show_the_tokens(token: Token, tokens: Seq<Token>, list: Seq<String>, i: int)
    ensures
        token_models(tokens).len() == tokens.len(),
        0 <= i < tokens.len() ==> token_models(tokens)[i] == tokens[i].model(),
        texts(list).len() == list.len(),
        0 <= i < list.len() ==> texts(list)[i] == list[i]@,
        token matches Token::Group { delimiter, stream, span } ==> {
            &&& token.model() matches TokenModel::Group {
                delimiter: marks,
                stream: inner,
                span: place,
            }
            &&& marks == delimiter
            &&& inner == token_models(stream@)
            &&& place == span
        },
        token matches Token::Ident { text, span } ==> token.model() == (TokenModel::Ident {
            text: text@,
            span,
        }),
        token matches Token::Punct { mark, joint, span } ==> token.model() == (TokenModel::Punct {
            mark,
            joint,
            span,
        }),
        token matches Token::Literal(literal) ==> token.model() == (TokenModel::Literal {
            text: literal.text@,
            span: literal.span,
        }),
{
    lemma_token_models(tokens);
}

proof fn lemma_token_models(tokens: Seq<Token>)
    ensures
        token_models(tokens).len() == tokens.len(),
        forall|i: int|
            0 <= i < tokens.len() ==> #[trigger] token_models(tokens)[i] == tokens[i].model(),
    decreases tokens.len(),
{
    if tokens.len() > 0 {
        let shorter = tokens.drop_last();
        lemma_token_models(shorter);
        assert forall|i: int| 0 <= i < tokens.len() implies #[trigger] token_models(tokens)[i]
            == tokens[i].model() by {
            if i < shorter.len() {
                assert(token_models(tokens)[i] == token_models(shorter)[i]);
            }
        }
    }
}

/// Tokens are rewritten one after the other: what stands for a list is what stands for each of its tokens,
/// in order.
pub proof fn law_tokens_are_rewritten_in_order(
    tokens: Seq<Token>,
    count: int,
    facade: Option<FacadePath>,
    lexed: Seq<Lexed>,
)
    requires
        0 <= count < tokens.len(),
    ensures
        rewritten(tokens, 0, facade, lexed).len() == 0,
        rewritten(tokens, count + 1, facade, lexed) == rewritten(tokens, count, facade, lexed)
            + rewritten_at(tokens, count, facade, lexed),
        rewritten_at(tokens, count, facade, lexed).len() >= 1,
{
}

/// The lexer is asked for the text of a literal with its paths led, where there is something to lead, and
/// for nothing else.
pub proof fn law_the_lexer_is_asked_for_led_literals(
    tokens: Seq<Token>,
    count: int,
    facade: FacadePath,
)
    requires
        0 <= count < tokens.len(),
    ensures
        asked(tokens, 0, Some(facade)).len() == 0,
        ({
            let before = asked(tokens, count, Some(facade));
            let after = asked(tokens, count + 1, Some(facade));
            match tokens[count] {
                Token::Literal(literal) => if led(literal.text@, facade) == literal.text@ {
                    after == before
                } else {
                    after == before.push(led(literal.text@, facade))
                },
                Token::Group { stream, .. } => after == before + asked(
                    stream@,
                    stream@.len() as int,
                    Some(facade),
                ),
                _ => after == before,
            }
        }),
{
    let before = asked(tokens, count, Some(facade));
    let after = asked(tokens, count + 1, Some(facade));
    match tokens[count] {
        Token::Literal(literal) => {
            if led(literal.text@, facade) == literal.text@ {
                assert(after =~= before);
            } else {
                assert(after =~= before.push(led(literal.text@, facade)));
            }
        },
        Token::Group { .. } => {},
        _ => {
            assert(after =~= before);
        },
    }
}

} // verus!
