// The markup grammar written a second time, with nom's combinators, and held
// against the library's parser on many inputs.

use baelyks_notification_server::markup::grammar::ParseFailure;
use baelyks_notification_server::markup::{parse_markup, MarkupTag};
use nom::{
    branch::{alt, permutation},
    bytes::{tag, take_until, take_until1},
    character::complete::multispace0,
    combinator::{eof, peek},
    error::ParseError,
    multi::many_till,
    sequence::{delimited, separated_pair},
    IResult, Parser,
};

fn ws<'a, O, E: ParseError<&'a str>, F>(inner: F) -> impl Parser<&'a str, Output = O, Error = E>
where
    F: Parser<&'a str, Output = O, Error = E>,
{
    delimited(multispace0, inner, multispace0)
}

fn field<'a, E: ParseError<&'a str>>(
    name: &'a str,
) -> impl Parser<&'a str, Output = &'a str, Error = E> {
    let field_name = separated_pair(tag(name), ws(tag("=")), tag("\""));
    ws(delimited(field_name, take_until1("\""), tag("\"")))
}

fn image(input: &str) -> IResult<&str, MarkupTag> {
    let (remainder, (src, alt)) =
        delimited(tag("<img"), permutation((field("src"), field("alt"))), tag("/>"))
            .parse(input)?;
    Ok((remainder, MarkupTag::Image { src: src.into(), alt: alt.into() }))
}

fn hyperlink(input: &str) -> IResult<&str, MarkupTag> {
    let (after_open, href) = delimited(tag("<a"), field("href"), tag(">")).parse(input)?;
    let (at_closer, (children, _)) =
        many_till(alt((image, hyperlink, element, text)), peek(tag("</a>"))).parse(after_open)?;
    let (remainder, _) = tag("</a>").parse(at_closer)?;
    Ok((remainder, MarkupTag::Hyperlink { href: href.into(), children }))
}

fn element(input: &str) -> IResult<&str, MarkupTag> {
    let (after_open, tag_name) = delimited(tag("<"), take_until1(">"), tag(">")).parse(input)?;
    let end_tag = format!("</{}", tag_name);
    let (at_closer, (children, _)) =
        many_till(alt((image, hyperlink, element, text)), peek(tag(end_tag.as_str())))
            .parse(after_open)?;
    let contents = &after_open[..after_open.len() - at_closer.len()];
    let (remainder, _) = delimited(tag("</"), take_until(">"), tag(">")).parse(at_closer)?;
    let markup_tag = match tag_name.chars().next().unwrap() {
        'b' => MarkupTag::Bold(children),
        'u' => MarkupTag::Underline(children),
        'i' => MarkupTag::Italic(children),
        _ => MarkupTag::Text(contents.into()),
    };
    Ok((remainder, markup_tag))
}

fn text(input: &str) -> IResult<&str, MarkupTag> {
    let (rem, text) = take_until::<&str, &str, nom::error::Error<&str>>("<")
        .parse(input)
        .unwrap_or(("", input));
    Ok((rem, MarkupTag::Text(text.to_string())))
}

fn nodes(input: &str) -> IResult<&str, Vec<MarkupTag>> {
    let (rem, (tags, _)) = many_till(alt((image, hyperlink, element, text)), eof).parse(input)?;
    Ok((rem, tags))
}

fn by_combinators(input: &str) -> Result<Vec<MarkupTag>, ParseFailure> {
    match nodes(input) {
        Ok((_, tags)) => Ok(tags),
        Err(nom::Err::Incomplete(_)) => Err(ParseFailure::Incomplete),
        Err(_) => Err(ParseFailure::Mismatch),
    }
}

fn check_all(pieces: &[&str], depth: usize, prefix: &mut String, count: &mut usize) {
    assert_eq!(parse_markup(prefix), by_combinators(prefix), "input: {:?}", prefix);
    *count += 1;
    if depth == 0 {
        return;
    }
    for piece in pieces {
        let len = prefix.len();
        prefix.push_str(piece);
        check_all(pieces, depth - 1, prefix, count);
        prefix.truncate(len);
    }
}

#[test]
fn agrees_on_short_strings() {
    let pieces = ["<", ">", "/", "a", "b", "\"", "=", " ", "i"];
    let mut count = 0;
    check_all(&pieces, 5, &mut String::new(), &mut count);
    assert!(count > 50_000);
}

#[test]
fn agrees_on_tag_sequences() {
    let pieces = [
        "<b>", "</b>", "<i>", "</i>", "<u>", "</u>", "<x>", "</x>", "t", " ", "<", ">", "</",
    ];
    let mut count = 0;
    check_all(&pieces, 4, &mut String::new(), &mut count);
    assert!(count > 20_000);
}

#[test]
fn agrees_on_hyperlinks() {
    let pieces = [
        "<a", " href", "=", "\"", "u", ">", "</a>", "<b>", "</b>", " ", "t", "<a href=\"u\">",
    ];
    let mut count = 0;
    check_all(&pieces, 4, &mut String::new(), &mut count);
    let mut count = 0;
    check_all(&["<a href=\"u\">", "</a>", "<", "<>", "</a href=\"u\">", "t"], 5, &mut String::new(), &mut count);
}

#[test]
fn agrees_on_images() {
    let pieces = [
        "<img", " src=\"p\"", " alt=\"a\"", "/>", "src", "alt", "=", "\"", " ", "\t\r\n", "p", "/", ">",
    ];
    let mut count = 0;
    check_all(&pieces, 4, &mut String::new(), &mut count);
    let mut count = 0;
    check_all(&["<img", "src=\"p\"", "alt=\"a\"", " ", "/>", "t"], 6, &mut String::new(), &mut count);
}

#[test]
fn agrees_on_other_scripts() {
    let pieces = ["<b>", "</b>", "é", "日本", "<é>", "</é>", "<", "\u{1F600}", "<üb>", "</üb>"];
    let mut count = 0;
    check_all(&pieces, 4, &mut String::new(), &mut count);
}

#[test]
fn agrees_on_chosen_inputs() {
    let inputs = [
        "<a href=\"x>y\">text</a>",
        "<a href=\"x<y\">te<b>x</b>t</a>",
        "<a href=\"a\"><a href=\"b\">inner</a></a>",
        "<a href=\"a\"><a href=\"b\">inner</a>",
        "<a  href =  \"a\"  >x</a>",
        "<a\nhref=\"a\">x</a>",
        "<ahref=\"a\">x</a>",
        "<a href=\"\">x</a>",
        "<a href='u'>x</a>",
        "<a href=\"u\" >x</a>y</a>",
        "<a href=\"u\">x</A>",
        "<img src=\"p\" alt=\"a\" />",
        "<img src=\"p\" alt=\"a\"/ >",
        "<img src=\"p\"/>",
        "<img alt=\"a\"/>",
        "<img src=\"p\" src=\"q\" alt=\"a\"/>",
        "<img src=\"p\" alt=\"a\" src=\"q\"/>",
        "<img alt=\"a\" alt=\"b\" src=\"q\"/>",
        "<img src=\"\" alt=\"a\"/>",
        "<img src=\"p\" alt=\"\"/>",
        "<img src=\"p>\" alt=\"<a\"/>",
        "<imgsrc=\"p\"alt=\"a\"/>",
        "<img src=\"p\" alt=\"a\">x</img>",
        "<img src=\"p\" alt=\"a\"/><img alt=\"b\" src=\"q\"/>",
        "<image>x</image>",
        "<b>a<b>b</b>c</b>",
        "<b>a<b>b<b>c</b>d</b>e</b>",
        "<b>a<bold>b</bold>c</b>",
        "<bold>a<b>b</b>c</bold>",
        "<b>a<b>b</b>c",
        "<i>a<i>b</i><i>c</i>d</i>e",
        "<x>a<x>b</x>c</x>",
        "<x>a<b>b</x>c</b>",
        "<b>a<i>b</b>c</i>",
        "<a href=\"u\">a<b>b</b><a href=\"v\">c</a>d</a>",
        "<a href=\"u\"><address>x</address></a>",
        "<b><a href=\"</b\">x</a></b>",
        "<b>x</b",
        "<b>x<",
        "<b>x</",
        "<b>a</b>b</b>",
        "<b>x</bold>",
        "<bold>x</b>",
        "<b>x</b >",
        "<b >x</b >",
        "<b >x</b>",
        "<b\n>x</b\n>",
        "<b>x</b",
        "<b>x</",
        "<b>x<",
        "<b>x</i>",
        "<b><i>x</b></i>",
        "<b><i>x</i></b>",
        "<i><b><u>x</u></b></i>",
        "<br/>",
        "<br/>x</br/>",
        "< b>x</ b>",
        "<b>x</b>>",
        ">",
        "x>y",
        "x > y < z",
        "<<b>x</b>",
        "<b>x</b><",
        "</b>",
        "<1>x</1>",
        "<\u{e9}>x</\u{e9}>",
        "<b>\u{1F600}</b>\u{1F600}<",
        "<b>x</b>\n<i>y</i>",
        " <b>x</b> ",
        "<u></u>",
        "<x></x>",
        "<x>a</x><x>b</x>",
        "<x><x>a</x></x>",
        "<span><</span>",
        "<a>",
        "<a",
        "<a ",
        "<a h",
        "<a href",
        "<a href=",
        "<a href=\"",
        "<a href=\"u",
        "<a href=\"u\"",
        "<a href=\"u\">",
        "<a href=\"u\"></a",
        "<a href=\"u\"></a>",
        "<img",
        "<img ",
        "<img s",
        "<img src=\"p\"",
        "<img src=\"p\" ",
        "<img src=\"p\" a",
        "<img src=\"p\" alt=\"a\"",
        "<img src=\"p\" alt=\"a\"/",
        "<i",
        "<im",
        "<img>",
    ];
    for input in inputs {
        assert_eq!(parse_markup(input), by_combinators(input), "input: {:?}", input);
    }
}

#[test]
fn agrees_on_scrambled_inputs() {
    let pieces = [
        "<b>", "</b>", "<i>", "</i>", "<u>", "</u>", "<q>", "</q>", "<a href=\"u\">", "</a>",
        "<img src=\"p\" alt=\"a\"/>", "<img alt=\"a\" src=\"p\"/>", "<", ">", "/", "\"", "=", " ",
        "\n", "a", "b", "img", "src", "alt", "href", "text", "\u{e9}", "</", "/>", "<a", "<img",
    ];
    let mut state: u64 = 0x2545_f491_4f6c_dd1d;
    let mut next = move || {
        state ^= state << 13;
        state ^= state >> 7;
        state ^= state << 17;
        state
    };
    for _ in 0..20_000 {
        let count = next() % 12;
        let mut input = String::new();
        for _ in 0..count {
            input.push_str(pieces[(next() % pieces.len() as u64) as usize]);
        }
        assert_eq!(parse_markup(&input), by_combinators(&input), "input: {:?}", input);
    }
}
