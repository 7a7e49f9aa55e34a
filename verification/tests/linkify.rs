use process_frontmatter::linkify::{anchor, link_tokens, linkify_text, pattern, LinkKind};

#[test]
fn handle_in_parentheses_becomes_a_github_link() {
    assert_eq!(
        linkify_text("(@octocat)"),
        "(<a href=\"https://github.com/octocat\">@octocat</a>)"
    );
}

#[test]
fn email_in_parentheses_becomes_a_mailto_link() {
    assert_eq!(
        linkify_text("(me@example.com)"),
        "(<a href=\"mailto:me@example.com\">me@example.com</a>)"
    );
}

#[test]
fn text_without_tokens_is_unchanged() {
    assert_eq!(linkify_text("Jane Doe"), "Jane Doe");
    assert_eq!(linkify_text(""), "");
}

#[test]
fn tokens_outside_parentheses_are_left_alone() {
    assert_eq!(linkify_text("@octocat"), "@octocat");
    assert_eq!(linkify_text("me@example.com"), "me@example.com");
    assert_eq!(linkify_text("(@octocat"), "(@octocat");
    assert_eq!(linkify_text("( @octocat)"), "( @octocat)");
}

#[test]
fn empty_handle_is_no_token() {
    assert_eq!(linkify_text("(@)"), "(@)");
}

#[test]
fn handle_may_hold_digits_and_underscores() {
    assert_eq!(
        linkify_text("(@some_user42)"),
        "(<a href=\"https://github.com/some_user42\">@some_user42</a>)"
    );
}

#[test]
fn handle_with_a_hyphen_is_no_token() {
    assert_eq!(linkify_text("(@some-user)"), "(@some-user)");
}

#[test]
fn every_token_is_linked_and_the_text_between_is_kept() {
    assert_eq!(
        linkify_text("Jane (@jane) and Joe (@joe)!"),
        "Jane (<a href=\"https://github.com/jane\">@jane</a>) and Joe \
         (<a href=\"https://github.com/joe\">@joe</a>)!"
    );
}

#[test]
fn handle_and_email_in_one_text() {
    assert_eq!(
        linkify_text("Jane (@jane) (jane.doe+books@mail.example.org)"),
        "Jane (<a href=\"https://github.com/jane\">@jane</a>) \
         (<a href=\"mailto:jane.doe+books@mail.example.org\">jane.doe+books@mail.example.org</a>)"
    );
}

#[test]
fn email_needs_a_dot_in_its_domain() {
    assert_eq!(linkify_text("(me@localhost)"), "(me@localhost)");
}

#[test]
fn text_around_a_token_may_hold_any_characters() {
    assert_eq!(
        linkify_text("Zoë ☃ (@zoe) – über"),
        "Zoë ☃ (<a href=\"https://github.com/zoe\">@zoe</a>) – über"
    );
}

#[test]
fn anchor_of_a_handle() {
    assert_eq!(
        anchor(LinkKind::Handle, "octocat"),
        "(<a href=\"https://github.com/octocat\">@octocat</a>)"
    );
}

#[test]
fn anchor_of_an_email() {
    assert_eq!(
        anchor(LinkKind::Email, "me@example.com"),
        "(<a href=\"mailto:me@example.com\">me@example.com</a>)"
    );
}

#[test]
fn anchor_of_an_empty_token() {
    assert_eq!(anchor(LinkKind::Handle, ""), "(<a href=\"https://github.com/\">@</a>)");
    assert_eq!(anchor(LinkKind::Email, ""), "(<a href=\"mailto:\"></a>)");
}

#[test]
fn patterns_of_the_two_kinds() {
    assert_eq!(pattern(LinkKind::Handle), r"\(@([a-zA-Z0-9_]+)\)");
    assert_eq!(
        pattern(LinkKind::Email),
        r"\(([a-zA-Z0-9_.+-]+@[a-zA-Z0-9-]+\.[a-zA-Z0-9-.]+)\)"
    );
}

#[test]
fn pass_for_handles_leaves_emails_alone() {
    assert_eq!(
        link_tokens(LinkKind::Handle, "(@jane) (jane@example.com)"),
        "(<a href=\"https://github.com/jane\">@jane</a>) (jane@example.com)"
    );
}

#[test]
fn pass_for_emails_leaves_handles_alone() {
    assert_eq!(
        link_tokens(LinkKind::Email, "(@jane) (jane@example.com)"),
        "(@jane) (<a href=\"mailto:jane@example.com\">jane@example.com</a>)"
    );
}

#[test]
fn links_of_the_first_pass_are_not_linked_again() {
    let once = linkify_text("(@jane)");
    assert_eq!(once, "(<a href=\"https://github.com/jane\">@jane</a>)");
    assert_eq!(linkify_text(&once), once);
}
