//! The form in which a model is connected, as lines on the screen.
use crate::blocks::{less, smaller};
use crate::form::{Entry, Form, SettingsField, suggested_models};
use crate::models::{needs_base_url, provider_needs_base_url};
use crate::style::{
    Line, Piece, Span, append_lines, append_spans, blank_line, blank_row, colored, line1, line2,
    line3, line_of, no_lines, no_spans, piece, push_line, push_span, raw, raw_span, room, rows,
    span, suffixed,
};
use crate::table::larger;
use crate::text::{cat2, cat3, pad_to, padded_to, repeat_char, repeated, same, texts, trim, trimmed};
use crate::theme::{accent, faint, ink, muted, success};
use vstd::prelude::*;

verus! {

/// The code that is entered elsewhere to sign in.
pub struct DeviceCode {
    pub user_code: String,
    pub verification_url: String,
}

pub open spec fn device_of(d: Option<&DeviceCode>) -> Option<(Seq<char>, Seq<char>)> {
    match d {
        Some(c) => Some((c.user_code@, c.verification_url@)),
        None => None,
    }
}

/// A labelled field.
pub open spec fn field_row(label: Seq<char>, focused: bool, value: Seq<Piece>) -> Seq<Piece> {
    seq![
        piece(
            if focused {
                "  ▸ "@
            } else {
                "    "@
            },
            colored(accent()).bolded(),
        ),
        piece(
            padded_to(label, 12),
            if focused {
                colored(ink()).bolded()
            } else {
                colored(muted())
            },
        ),
        raw("  "@),
    ] + value
}

/// A value that is chosen, between angle brackets while it is focused.
pub open spec fn chooser(text: Seq<char>, focused: bool, suffix: Seq<char>) -> Seq<Piece> {
    if focused {
        seq![
            piece("‹ "@, colored(accent())),
            piece(text, colored(ink()).bolded()),
            piece(" ›"@ + suffix, colored(accent())),
        ]
    } else {
        seq![piece(text + suffix, colored(ink()))]
    }
}

/// A value that is typed, with the cursor behind it while it is focused.
pub open spec fn typed_value(text: Seq<char>, focused: bool) -> Seq<Piece> {
    seq![
        piece(
            text,
            if text.len() == 0 {
                colored(muted())
            } else {
                colored(ink())
            },
        ),
    ] + (if focused {
        seq![piece("█"@, colored(accent()))]
    } else {
        Seq::empty()
    })
}

/// A key, masked.
pub open spec fn masked_value(key: Seq<char>, focused: bool) -> Seq<Piece> {
    if key.len() == 0 {
        if focused {
            seq![piece("█"@, colored(accent()))]
        } else {
            seq![piece("(required)"@, colored(muted()))]
        }
    } else {
        seq![piece(repeated('•', key.len()), colored(ink()))] + (if focused {
            seq![piece("█"@, colored(accent()))]
        } else {
            Seq::empty()
        })
    }
}

/// How an account signs in.
pub open spec fn account_rows(signed_in: bool, device: Option<(Seq<char>, Seq<char>)>) -> Seq<
    Seq<Piece>,
> {
    let head = seq![
        blank_row(),
        seq![
            piece("    ChatGPT account"@, colored(ink()).bolded()),
            piece("  ·  browser or device-code sign in"@, colored(muted())),
        ],
    ];
    let body = if signed_in {
        seq![
            seq![piece("    ✓ signed in"@, colored(success()))],
            seq![
                piece(
                    "    Enter = use this account  ·  Ctrl-L = sign out"@,
                    colored(muted()),
                ),
            ],
        ]
    } else {
        match device {
            Some((code, url)) => seq![
                seq![piece("    Device code: "@ + code, colored(accent()).bolded())],
                seq![piece("    Open "@ + url + " to complete sign-in"@, colored(ink()))],
                seq![
                    piece(
                        "    c = copy code  ·  u = copy URL  ·  Enter = browser sign-in"@,
                        colored(muted()),
                    ),
                ],
            ],
            None => seq![
                seq![
                    piece(
                        "    Enter = sign in with browser  ·  Ctrl-D = device code"@,
                        colored(accent()),
                    ),
                ],
            ],
        }
    };
    (head + body).push(blank_row())
}

/// The suggestions for the model, the present one marked.
pub open spec fn suggestion_rows(list: Seq<Seq<char>>, model: Seq<char>) -> Seq<Seq<Piece>> {
    if list.len() == 0 {
        seq![
            seq![
                piece("          (no suggestions — type a model id)"@, colored(muted())),
            ],
        ]
    } else {
        list.map_values(
            |m: Seq<char>|
                if m == model {
                    seq![
                        piece("          ▸ "@, colored(accent())),
                        piece(m, colored(ink())),
                    ]
                } else {
                    seq![
                        piece("            "@, colored(accent())),
                        piece(m, colored(muted())),
                    ]
                },
        )
    }
}

pub open spec fn effort_label(provider: Seq<char>) -> Seq<char> {
    if provider == "anthropic"@ || provider == "anthropic-compatible"@ || provider == "gemini"@ {
        "thinking"@
    } else {
        "reasoning"@
    }
}

/// The title of the form.
pub open spec fn login_head(width: nat) -> Seq<Seq<Piece>> {
    let pad = larger(room(smaller(width, 56), 18), 3);
    seq![
        blank_row(),
        seq![
            piece("── "@, colored(faint())),
            piece("connect a model"@, colored(accent()).bolded()),
            piece(" "@ + repeated('─', pad), colored(faint())),
        ],
        blank_row(),
    ]
}

/// The fields of the form.
pub open spec fn login_fields(
    e: Entry,
    signed_in: bool,
    device: Option<(Seq<char>, Seq<char>)>,
) -> Seq<Seq<Piece>> {
    let on = |f: SettingsField| e.focus == f;
    seq![
        field_row(
            "provider"@,
            on(SettingsField::Provider),
            chooser(e.provider, on(SettingsField::Provider), ""@),
        ),
    ] + (if e.provider == "chatgpt"@ {
        account_rows(signed_in, device)
    } else {
        seq![
            field_row(
                "api key"@,
                on(SettingsField::ApiKey),
                masked_value(e.api_key, on(SettingsField::ApiKey)),
            ),
        ]
    }) + (if needs_base_url(e.provider) {
        seq![
            field_row(
                "base url"@,
                on(SettingsField::BaseUrl),
                typed_value(e.base_url, on(SettingsField::BaseUrl)),
            ),
        ]
    } else {
        Seq::empty()
    }) + seq![
        field_row(
            "model"@,
            on(SettingsField::Model),
            chooser(
                if e.model.len() == 0 {
                    "(pick one)"@
                } else {
                    e.model
                },
                on(SettingsField::Model),
                " ▾"@,
            ),
        ),
        field_row(
            effort_label(e.provider),
            on(SettingsField::Reasoning),
            chooser(
                match e.reasoning_effort {
                    Some(r) => r,
                    None => "medium"@,
                },
                on(SettingsField::Reasoning),
                ""@,
            ),
        ),
        field_row(
            "context"@,
            on(SettingsField::ContextWindow),
            typed_value(e.context_window, on(SettingsField::ContextWindow)),
        ),
        field_row(
            "compact at"@,
            on(SettingsField::Compaction),
            chooser(
                trimmed(e.compact_at_pct) + "%"@,
                on(SettingsField::Compaction),
                ""@,
            ),
        ),
    ]
}

/// What is below the fields: suggestions for the model, how fetching them went,
/// and what the numbers mean.
pub open spec fn login_foot(e: Entry, width: nat) -> Seq<Seq<Piece>> {
    (if e.focus == SettingsField::Model {
        suggestion_rows(suggested_models(e), e.model)
    } else {
        Seq::empty()
    }) + (if e.fetch_status.len() > 0 {
        seq![blank_row(), seq![piece("    "@ + e.fetch_status, colored(muted()))]]
    } else {
        Seq::empty()
    }) + seq![
        blank_row(),
        seq![
            piece(
                "    Context window = max prompt budget. Compaction starts near "@ + trimmed(
                    e.compact_at_pct,
                ) + "% of it."@,
                colored(muted()),
            ),
        ],
        seq![piece(repeated('─', smaller(width, 56)), colored(faint()))],
        blank_row(),
    ]
}

/// The form.
pub open spec fn login_rows(
    e: Entry,
    signed_in: bool,
    device: Option<(Seq<char>, Seq<char>)>,
    width: nat,
) -> Seq<Seq<Piece>> {
    login_head(width) + login_fields(e, signed_in, device) + login_foot(e, width)
}

/// A key is never shown: two keys of one length look the same.
pub proof fn keys_are_not_shown(
    e: Entry,
    key: Seq<char>,
    signed_in: bool,
    device: Option<(Seq<char>, Seq<char>)>,
    width: nat,
)
    requires
        key.len() == e.api_key.len(),
    ensures
        login_rows(e, signed_in, device, width) == login_rows(
            Entry { api_key: key, ..e },
            signed_in,
            device,
            width,
        ),
{
    let o = Entry { api_key: key, ..e };
    assert(masked_value(e.api_key, e.focus == SettingsField::ApiKey) == masked_value(
        key,
        e.focus == SettingsField::ApiKey,
    ));
    assert(suggested_models(e) == suggested_models(o));
    assert(login_fields(e, signed_in, device) == login_fields(o, signed_in, device));
    assert(login_foot(e, width) == login_foot(o, width));
}

fn field_line(label: &str, focused: bool, value: Line) -> (r: Line)
    ensures
        r@ == field_row(label@, focused, value@),
{
    let mut spans = no_spans();
    let lead = if focused {
        "  ▸ "
    } else {
        "    "
    };
    push_span(&mut spans, span(lead, colored(accent()).bolded()));
    let name = pad_to(label, 12);
    let style = if focused {
        colored(ink()).bolded()
    } else {
        colored(muted())
    };
    push_span(&mut spans, Span { text: name, style });
    push_span(&mut spans, raw_span("  "));
    append_spans(&mut spans, value);
    let r = line_of(spans);
    assert(r@ =~= field_row(label@, focused, value@));
    r
}

fn choose_value(text: &str, focused: bool, suffix: &str) -> (r: Line)
    ensures
        r@ == chooser(text@, focused, suffix@),
{
    if focused {
        let close = cat2(" ›", suffix);
        line3(
            span("‹ ", colored(accent())),
            span(text, colored(ink()).bolded()),
            Span { text: close, style: colored(accent()) },
        )
    } else {
        line1(Span { text: cat2(text, suffix), style: colored(ink()) })
    }
}

fn type_value(text: &str, focused: bool) -> (r: Line)
    ensures
        r@ == typed_value(text@, focused),
{
    let style = if text.is_empty() {
        colored(muted())
    } else {
        colored(ink())
    };
    let first = line1(span(text, style));
    let r = if focused {
        suffixed(first, span("█", colored(accent())))
    } else {
        first
    };
    assert(r@ =~= typed_value(text@, focused));
    r
}

fn mask_value(key: &str, focused: bool) -> (r: Line)
    ensures
        r@ == masked_value(key@, focused),
{
    let n: usize = key.unicode_len();
    if n == 0 {
        if focused {
            return line1(span("█", colored(accent())));
        }
        return line1(span("(required)", colored(muted())));
    }
    let first = line1(Span { text: repeat_char('•', n), style: colored(ink()) });
    let r = if focused {
        suffixed(first, span("█", colored(accent())))
    } else {
        first
    };
    assert(r@ =~= masked_value(key@, focused));
    r
}

fn account_lines(signed_in: bool, device: Option<&DeviceCode>) -> (r: Vec<Line>)
    ensures
        rows(r@) == account_rows(signed_in, device_of(device)),
{
    let mut out = no_lines();
    push_line(&mut out, blank_line());
    push_line(
        &mut out,
        line2(
            span("    ChatGPT account", colored(ink()).bolded()),
            span("  ·  browser or device-code sign in", colored(muted())),
        ),
    );
    if signed_in {
        push_line(&mut out, line1(span("    ✓ signed in", colored(success()))));
        push_line(
            &mut out,
            line1(
                span("    Enter = use this account  ·  Ctrl-L = sign out", colored(muted())),
            ),
        );
    } else {
        match device {
            Some(c) => {
                let code = cat2("    Device code: ", c.user_code.as_str());
                let open = cat3("    Open ", c.verification_url.as_str(), " to complete sign-in");
                push_line(&mut out, line1(Span { text: code, style: colored(accent()).bolded() }));
                push_line(&mut out, line1(Span { text: open, style: colored(ink()) }));
                push_line(
                    &mut out,
                    line1(
                        span(
                            "    c = copy code  ·  u = copy URL  ·  Enter = browser sign-in",
                            colored(muted()),
                        ),
                    ),
                );
            },
            None => {
                push_line(
                    &mut out,
                    line1(
                        span(
                            "    Enter = sign in with browser  ·  Ctrl-D = device code",
                            colored(accent()),
                        ),
                    ),
                );
            },
        }
    }
    push_line(&mut out, blank_line());
    assert(rows(out@) =~= account_rows(signed_in, device_of(device)));
    out
}

fn suggestion_lines(list: &Vec<String>, model: &str) -> (r: Vec<Line>)
    ensures
        rows(r@) == suggestion_rows(texts(list@), model@),
{
    let mut out = no_lines();
    let ghost goal = suggestion_rows(texts(list@), model@);
    assert(texts(list@).len() == list@.len());
    if list.len() == 0 {
        push_line(
            &mut out,
            line1(span("          (no suggestions — type a model id)", colored(muted()))),
        );
        assert(rows(out@) =~= goal);
        return out;
    }
    for i in 0..list.len()
        invariant
            list@.len() > 0,
            texts(list@).len() == list@.len(),
            goal == suggestion_rows(texts(list@), model@),
            rows(out@).len() == i,
            forall|k: int| 0 <= k < i ==> #[trigger] rows(out@)[k] == goal[k],
    {
        let m = list[i].as_str();
        if same(m, model) {
            push_line(
                &mut out,
                line2(span("          ▸ ", colored(accent())), span(m, colored(ink()))),
            );
        } else {
            push_line(
                &mut out,
                line2(span("            ", colored(accent())), span(m, colored(muted()))),
            );
        }
    }
    assert(rows(out@) =~= goal);
    out
}

fn head_lines(width: usize) -> (r: Vec<Line>)
    ensures
        rows(r@) == login_head(width as nat),
{
    let w: usize = if width <= 56 {
        width
    } else {
        56
    };
    let n = less(w, 18);
    let pad: usize = if n >= 3 {
        n
    } else {
        3
    };
    let dashes = repeat_char('─', pad);
    let mut out = no_lines();
    push_line(&mut out, blank_line());
    push_line(
        &mut out,
        line3(
            span("── ", colored(faint())),
            span("connect a model", colored(accent()).bolded()),
            Span { text: cat2(" ", dashes.as_str()), style: colored(faint()) },
        ),
    );
    push_line(&mut out, blank_line());
    assert(rows(out@) =~= login_head(width as nat));
    out
}

fn label_of_effort(provider: &str) -> (r: &'static str)
    ensures
        r@ == effort_label(provider@),
{
    if same(provider, "anthropic") || same(provider, "anthropic-compatible") || same(
        provider,
        "gemini",
    ) {
        "thinking"
    } else {
        "reasoning"
    }
}

fn field_lines(form: &Form, signed_in: bool, device: Option<&DeviceCode>) -> (r: Vec<Line>)
    ensures
        rows(r@) == login_fields(form@, signed_in, device_of(device)),
{
    let ghost goal = login_fields(form@, signed_in, device_of(device));
    let mut out = no_lines();
    let on = form.focus == SettingsField::Provider;
    push_line(&mut out, field_line("provider", on, choose_value(form.provider.as_str(), on, "")));
    if same(form.provider.as_str(), "chatgpt") {
        append_lines(&mut out, account_lines(signed_in, device));
    } else {
        let on = form.focus == SettingsField::ApiKey;
        push_line(&mut out, field_line("api key", on, mask_value(form.api_key.as_str(), on)));
    }
    if provider_needs_base_url(form.provider.as_str()) {
        let on = form.focus == SettingsField::BaseUrl;
        push_line(&mut out, field_line("base url", on, type_value(form.base_url.as_str(), on)));
    }
    let on = form.focus == SettingsField::Model;
    let model = if form.model.as_str().is_empty() {
        "(pick one)"
    } else {
        form.model.as_str()
    };
    push_line(&mut out, field_line("model", on, choose_value(model, on, " ▾")));
    let on = form.focus == SettingsField::Reasoning;
    let effort = match &form.reasoning_effort {
        Some(r) => r.clone(),
        None => "medium".to_string(),
    };
    push_line(
        &mut out,
        field_line(
            label_of_effort(form.provider.as_str()),
            on,
            choose_value(effort.as_str(), on, ""),
        ),
    );
    let on = form.focus == SettingsField::ContextWindow;
    push_line(&mut out, field_line("context", on, type_value(form.context_window.as_str(), on)));
    let on = form.focus == SettingsField::Compaction;
    let pct = trim(form.compact_at_pct.as_str());
    let label = cat2(pct.as_str(), "%");
    push_line(&mut out, field_line("compact at", on, choose_value(label.as_str(), on, "")));
    assert(rows(out@) =~= goal);
    out
}

fn foot_lines(form: &Form, width: usize) -> (r: Vec<Line>)
    ensures
        rows(r@) == login_foot(form@, width as nat),
{
    let mut out = no_lines();
    if form.focus == SettingsField::Model {
        append_lines(&mut out, suggestion_lines(&form.model_rows(), form.model.as_str()));
    }
    if !form.fetch_status.as_str().is_empty() {
        push_line(&mut out, blank_line());
        let status = cat2("    ", form.fetch_status.as_str());
        push_line(&mut out, line1(Span { text: status, style: colored(muted()) }));
    }
    push_line(&mut out, blank_line());
    let pct = trim(form.compact_at_pct.as_str());
    let meaning = cat3(
        "    Context window = max prompt budget. Compaction starts near ",
        pct.as_str(),
        "% of it.",
    );
    push_line(&mut out, line1(Span { text: meaning, style: colored(muted()) }));
    let dashes = repeat_char(
        '─',
        if width <= 56 {
            width
        } else {
            56
        },
    );
    push_line(&mut out, line1(Span { text: dashes, style: colored(faint()) }));
    push_line(&mut out, blank_line());
    assert(rows(out@) =~= login_foot(form@, width as nat));
    out
}

/// The form in which a model is connected.
pub fn form_lines(
    form: &Form,
    signed_in: bool,
    device: Option<&DeviceCode>,
    width: usize,
) -> (r: Vec<Line>)
    ensures
        rows(r@) == login_rows(form@, signed_in, device_of(device), width as nat),
{
    let mut out = head_lines(width);
    append_lines(&mut out, field_lines(form, signed_in, device));
    append_lines(&mut out, foot_lines(form, width));
    out
}

} // verus!
