use crust::ast::{AstPrinter, Expression};
use crust::token::Token;

#[test]
fn print_ast() {
    let expr = Expression::Binary {
        left: Box::new(Expression::Unary {
            op: Token::Minus,
            right: Box::new(Expression::Literal {
                value: Token::Float(b"2.0".to_vec()),
            }),
        }),
        op: Token::Star,
        right: Box::new(Expression::Grouping {
            expr: Box::new(Expression::Literal {
                value: Token::Integer(15),
            }),
        }),
    };
    let visitor = AstPrinter {};
    assert_eq!(
        expr.accept(&visitor).unwrap(),
        b"( Star ( Minus 2.0 ) ( group 15 ) )".to_vec()
    );
}

#[test]
fn print_literal_forms() {
    let visitor = AstPrinter {};
    let ident = Expression::Literal {
        value: Token::Identifier(b"some_name".to_vec()),
    };
    assert_eq!(ident.accept(&visitor).unwrap(), b"\"some_name\"".to_vec());

    let string = Expression::Literal {
        value: Token::String(b"hi there".to_vec()),
    };
    assert_eq!(string.accept(&visitor).unwrap(), b"\"hi there\"".to_vec());

    let negative = Expression::Literal {
        value: Token::Integer(-12),
    };
    assert_eq!(negative.accept(&visitor).unwrap(), b"-12".to_vec());

    let zero = Expression::Literal {
        value: Token::Integer(0),
    };
    assert_eq!(zero.accept(&visitor).unwrap(), b"0".to_vec());

    // a token without data renders as the word nil
    let dataless = Expression::Literal { value: Token::Plus };
    assert_eq!(dataless.accept(&visitor).unwrap(), b"nil".to_vec());
}

#[test]
fn print_grouping_wraps_inner_text() {
    let visitor = AstPrinter {};
    let expr = Expression::Grouping {
        expr: Box::new(Expression::Binary {
            left: Box::new(Expression::Literal {
                value: Token::Integer(1),
            }),
            op: Token::Plus,
            right: Box::new(Expression::Literal {
                value: Token::Integer(2),
            }),
        }),
    };
    assert_eq!(
        expr.accept(&visitor).unwrap(),
        b"( group ( Plus 1 2 ) )".to_vec()
    );
}
