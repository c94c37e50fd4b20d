//! End-to-end tests of the compile pipeline: parse a markup text, generate
//! its expression string, and compare with the exact expected output.

use wxfre::generator::Generator;
use wxfre::lexer::LexerError;
use wxfre::parser::Parser;
use wxfre::transform;

fn compile(input: &str) -> String {
    let mut parser = Parser::new(input);
    let ast = parser.parse_all().expect("parse failed");
    let mut gen = Generator::new(ast);
    gen.generate_fre()
}

#[test]
fn it_works() {
    let mut parser = Parser::new(
        "<view wx:for=\"{{list}}\">
                    hello {{item}}!
                    <text wx:if=\"{{a}}\">a</text>
                    <text wx:elseif=\"{{b}}\">b</text>
                    <text wx:else />
                </view>",
    );

    let res = parser.parse_all();
    match res {
        Ok(ast) => {
            let mut gen = Generator::new(ast);
            let code = gen.generate_fre();
            assert_eq!(code, "<>{list.map((item)=><View>hello {item}! {a?<Text>a</Text>:b?<Text>b</Text>:true?<Text/>:null}</View>)}</>".to_string());
        }
        Err(err) => {
            panic!("{:?}", err);
        }
    }
}

#[test]
fn transform_canonical() {
    let out = transform(
        "<view wx:for=\"{{list}}\"> hello {{item}}! <text wx:if=\"{{a}}\">a</text><text wx:elseif=\"{{b}}\">b</text><text wx:else/></view>",
    )
    .expect("transform failed");
    assert_eq!(
        out,
        "<>{list.map((item)=><View>hello {item}! {a?<Text>a</Text>:b?<Text>b</Text>:true?<Text/>:null}</View>)}</>"
    );
}

#[test]
fn event_and_boolean_attribute() {
    let out = compile("<button bindtap=\"{{onTap}}\" disabled>Go</button>");
    assert_eq!(out, "<Button onclick=\"onTap\" disabled=\"true\">Go</Button>");
}

#[test]
fn comment_elision() {
    let out = compile("<!-- note --><text>hi</text>");
    assert_eq!(out, "<Text>hi</Text>");
}

#[test]
fn multi_root_collapsing() {
    let out = compile("<text>a</text><text>b</text>");
    assert_eq!(out, "<Text>a</Text>");
}

#[test]
fn tag_name_casing_asymmetry() {
    assert_eq!(compile("<my-icon></my-icon>"), "<MyIcon></MyIcon>");
    assert_eq!(compile("<my-icon/>"), "<My-icon/>");
}

#[test]
fn event_remap_through_pipeline() {
    assert_eq!(
        compile("<button bindtap=\"{{t}}\"></button>"),
        "<Button onclick=\"t\"></Button>"
    );
    assert_eq!(
        compile("<input bindconfirm=\"{{c}}\"/>"),
        "<Input onkeydown=\"c\"/>"
    );
    assert_eq!(
        compile("<view bindlongpress=\"{{l}}\"></view>"),
        "<View onlongpress=\"l\"></View>"
    );
}

#[test]
fn for_with_if_resolves_conditional_first() {
    let out = compile("<view wx:for=\"{{xs}}\" wx:if=\"{{c}}\">t</view>");
    assert_eq!(out, "<>{xs.map((item)=>{c?<View>t</View>:)}</>");
}

#[test]
fn lone_for_wraps_in_fragment() {
    let out = compile("<view wx:for=\"{{xs}}\">t</view>");
    assert_eq!(out, "<>{xs.map((item)=><View>t</View>)}</>");
}

#[test]
fn elseif_without_if_degrades_to_plain_code() {
    let out = compile("<text wx:elseif=\"{{b}}\">b</text>");
    assert_eq!(out, "<Text>b</Text>");
}

#[test]
fn if_else_chain_across_siblings() {
    let out = compile("<view><text wx:if=\"{{a}}\">a</text><text wx:else/></view>");
    assert_eq!(out, "<View>{a?<Text>a</Text>:true?<Text/>:null}</View>");
}

#[test]
fn else_without_open_chain_degrades_to_plain_code() {
    let out = compile("<view><text wx:else/></view>");
    assert_eq!(out, "<View><Text/></View>");
}

#[test]
fn key_directive_is_emitted_inline() {
    let out = compile("<view wx:key=\"{{id}}\">x</view>");
    assert_eq!(out, "<View key=\"id\">x</View>");
}

#[test]
fn missing_quote_style_is_an_expected_token_error() {
    let mut parser = Parser::new("<view a=x>");
    match parser.parse_all() {
        Err(LexerError::Expect(_, msg)) => assert_eq!(msg, "quote"),
        other => panic!("expected a quote error, got {:?}", other),
    }
}

#[test]
fn unterminated_value_is_end_of_input() {
    let mut parser = Parser::new("<view a=\"x");
    match parser.parse_all() {
        Err(LexerError::END) => {}
        other => panic!("expected end-of-input, got {:?}", other),
    }
}

#[test]
fn bare_slash_in_attributes_is_unexpected_token() {
    let mut parser = Parser::new("<view / >");
    match parser.parse_all() {
        Err(LexerError::UnexpectedToken(_, _)) => {}
        other => panic!("expected an unexpected-token error, got {:?}", other),
    }
}

#[test]
fn empty_input_is_end_of_input() {
    let mut parser = Parser::new("");
    match parser.parse_all() {
        Err(LexerError::END) => {}
        other => panic!("expected end-of-input, got {:?}", other),
    }
}

#[test]
fn transform_is_deterministic_across_fresh_instances() {
    let input = "<view wx:for=\"{{list}}\"><text wx:if=\"{{a}}\">a</text></view>";
    let a = transform(input).expect("transform failed");
    let b = transform(input).expect("transform failed");
    assert_eq!(a, b);
}
