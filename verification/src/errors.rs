//! Diagnostics of errors that Lua itself reports when it loads the code.
use crate::lints::{
    ann, annotated, labeled_spans_annotations, note, patch, patches, push_ann, push_group,
    push_labeled_spans, push_patch, new_anns, new_groups, new_patches,
};
use crate::ast::{AstNode, Exp};
use crate::parser::{Cst, NodeRef, 
    anns_view, groups_view, patches_view,
    Annotation, AnnotationKind, Diagnostic, DiagnosticContext, DiagnosticView, Element, Group,
    GroupView, Level, Patch, Span,
};
use vstd::prelude::*;

verus! {

impl<'a> DiagnosticContext<'a> {
    pub fn invalid_syntax(&self, span: Span, message: String) -> (r: Diagnostic)
        ensures
            r@ == (DiagnosticView { error: true, groups: seq![annotated(Level::Error, message@, seq![ann(AnnotationKind::Primary, span, None)])] }),
    {
        let mut groups: Vec<Group> = new_groups();
        let mut a0: Vec<Annotation> = new_anns();
        push_ann(&mut a0, Annotation { kind: AnnotationKind::Primary, span: span, label: None });
        assert(anns_view(a0@) =~= seq![ann(AnnotationKind::Primary, span, None)]);
        let g0 = Group { level: Level::Error, title: message, lint: None, element: Some(Element::Annotations(a0)) };
        assert(g0@ == annotated(Level::Error, message@, seq![ann(AnnotationKind::Primary, span, None)]));
        push_group(&mut groups, g0);
        assert(groups_view(groups@) =~= seq![annotated(Level::Error, message@, seq![ann(AnnotationKind::Primary, span, None)])]);
        assert(groups_view(groups@) =~= (DiagnosticView { error: true, groups: seq![annotated(Level::Error, message@, seq![ann(AnnotationKind::Primary, span, None)])] }).groups);
        let r = Diagnostic { error: true, groups };
        r
    }

    pub fn invalid_token(&self, span: Span) -> (r: Diagnostic)
        ensures
            r@ == (DiagnosticView { error: true, groups: seq![annotated(Level::Error, "invalid token"@, seq![ann(AnnotationKind::Primary, span, None)])] }),
    {
        let mut groups: Vec<Group> = new_groups();
        let mut a0: Vec<Annotation> = new_anns();
        push_ann(&mut a0, Annotation { kind: AnnotationKind::Primary, span: span, label: None });
        assert(anns_view(a0@) =~= seq![ann(AnnotationKind::Primary, span, None)]);
        let g0 = Group { level: Level::Error, title: "invalid token".to_owned(), lint: None, element: Some(Element::Annotations(a0)) };
        assert(g0@ == annotated(Level::Error, "invalid token"@, seq![ann(AnnotationKind::Primary, span, None)]));
        push_group(&mut groups, g0);
        assert(groups_view(groups@) =~= seq![annotated(Level::Error, "invalid token"@, seq![ann(AnnotationKind::Primary, span, None)])]);
        assert(groups_view(groups@) =~= (DiagnosticView { error: true, groups: seq![annotated(Level::Error, "invalid token"@, seq![ann(AnnotationKind::Primary, span, None)])] }).groups);
        let r = Diagnostic { error: true, groups };
        r
    }

    pub fn unterminated_string(&self, span: Span) -> (r: Diagnostic)
        ensures
            r@ == (DiagnosticView { error: true, groups: seq![annotated(Level::Error, "unterminated string"@, seq![ann(AnnotationKind::Primary, span, None)])] }),
    {
        let mut groups: Vec<Group> = new_groups();
        let mut a0: Vec<Annotation> = new_anns();
        push_ann(&mut a0, Annotation { kind: AnnotationKind::Primary, span: span, label: None });
        assert(anns_view(a0@) =~= seq![ann(AnnotationKind::Primary, span, None)]);
        let g0 = Group { level: Level::Error, title: "unterminated string".to_owned(), lint: None, element: Some(Element::Annotations(a0)) };
        assert(g0@ == annotated(Level::Error, "unterminated string"@, seq![ann(AnnotationKind::Primary, span, None)]));
        push_group(&mut groups, g0);
        assert(groups_view(groups@) =~= seq![annotated(Level::Error, "unterminated string"@, seq![ann(AnnotationKind::Primary, span, None)])]);
        assert(groups_view(groups@) =~= (DiagnosticView { error: true, groups: seq![annotated(Level::Error, "unterminated string"@, seq![ann(AnnotationKind::Primary, span, None)])] }).groups);
        let r = Diagnostic { error: true, groups };
        r
    }

    pub fn unterminated_comment(&self, span: Span) -> (r: Diagnostic)
        ensures
            r@ == (DiagnosticView { error: true, groups: seq![annotated(Level::Error, "unterminated comment"@, seq![ann(AnnotationKind::Primary, span, None)])] }),
    {
        let mut groups: Vec<Group> = new_groups();
        let mut a0: Vec<Annotation> = new_anns();
        push_ann(&mut a0, Annotation { kind: AnnotationKind::Primary, span: span, label: None });
        assert(anns_view(a0@) =~= seq![ann(AnnotationKind::Primary, span, None)]);
        let g0 = Group { level: Level::Error, title: "unterminated comment".to_owned(), lint: None, element: Some(Element::Annotations(a0)) };
        assert(g0@ == annotated(Level::Error, "unterminated comment"@, seq![ann(AnnotationKind::Primary, span, None)]));
        push_group(&mut groups, g0);
        assert(groups_view(groups@) =~= seq![annotated(Level::Error, "unterminated comment"@, seq![ann(AnnotationKind::Primary, span, None)])]);
        assert(groups_view(groups@) =~= (DiagnosticView { error: true, groups: seq![annotated(Level::Error, "unterminated comment"@, seq![ann(AnnotationKind::Primary, span, None)])] }).groups);
        let r = Diagnostic { error: true, groups };
        r
    }

    pub fn unexpected_exp_stat(&self, span: Span) -> (r: Diagnostic)
        ensures
            r@ == (DiagnosticView { error: true, groups: seq![annotated(Level::Error, "unexpected expression kind"@, seq![ann(AnnotationKind::Primary, span, Some("expected call expression"@))])] }),
    {
        let mut groups: Vec<Group> = new_groups();
        let mut a0: Vec<Annotation> = new_anns();
        push_ann(&mut a0, Annotation { kind: AnnotationKind::Primary, span: span, label: Some("expected call expression".to_owned()) });
        assert(anns_view(a0@) =~= seq![ann(AnnotationKind::Primary, span, Some("expected call expression"@))]);
        let g0 = Group { level: Level::Error, title: "unexpected expression kind".to_owned(), lint: None, element: Some(Element::Annotations(a0)) };
        assert(g0@ == annotated(Level::Error, "unexpected expression kind"@, seq![ann(AnnotationKind::Primary, span, Some("expected call expression"@))]));
        push_group(&mut groups, g0);
        assert(groups_view(groups@) =~= seq![annotated(Level::Error, "unexpected expression kind"@, seq![ann(AnnotationKind::Primary, span, Some("expected call expression"@))])]);
        assert(groups_view(groups@) =~= (DiagnosticView { error: true, groups: seq![annotated(Level::Error, "unexpected expression kind"@, seq![ann(AnnotationKind::Primary, span, Some("expected call expression"@))])] }).groups);
        let r = Diagnostic { error: true, groups };
        r
    }

    pub fn unexpected_assign_lhs(&self, span: Span) -> (r: Diagnostic)
        ensures
            r@ == (DiagnosticView { error: true, groups: seq![annotated(Level::Error, "unexpected expression kind"@, seq![ann(AnnotationKind::Primary, span, Some("expected name, index, or field expression"@))])] }),
    {
        let mut groups: Vec<Group> = new_groups();
        let mut a0: Vec<Annotation> = new_anns();
        push_ann(&mut a0, Annotation { kind: AnnotationKind::Primary, span: span, label: Some("expected name, index, or field expression".to_owned()) });
        assert(anns_view(a0@) =~= seq![ann(AnnotationKind::Primary, span, Some("expected name, index, or field expression"@))]);
        let g0 = Group { level: Level::Error, title: "unexpected expression kind".to_owned(), lint: None, element: Some(Element::Annotations(a0)) };
        assert(g0@ == annotated(Level::Error, "unexpected expression kind"@, seq![ann(AnnotationKind::Primary, span, Some("expected name, index, or field expression"@))]));
        push_group(&mut groups, g0);
        assert(groups_view(groups@) =~= seq![annotated(Level::Error, "unexpected expression kind"@, seq![ann(AnnotationKind::Primary, span, Some("expected name, index, or field expression"@))])]);
        assert(groups_view(groups@) =~= (DiagnosticView { error: true, groups: seq![annotated(Level::Error, "unexpected expression kind"@, seq![ann(AnnotationKind::Primary, span, Some("expected name, index, or field expression"@))])] }).groups);
        let r = Diagnostic { error: true, groups };
        r
    }

    pub fn unexpected_attribute(&self, span: Span, global: bool) -> (r: Diagnostic)
        ensures
            r@ == (DiagnosticView { error: true, groups: seq![annotated(Level::Error, "unexpected attribute name"@, seq![ann(AnnotationKind::Primary, span, Some((if global { "expected `const`"@ } else { "expected `const` or `close`"@ })))])] + seq![patches(Level::Help, "replace it with `const`"@, seq![patch(span, "const"@)])] + (if !global { seq![patches(Level::Help, "replace it with `close`"@, seq![patch(span, "close"@)])] } else { Seq::empty() }) }),
    {
        let mut groups: Vec<Group> = new_groups();
        let mut a0: Vec<Annotation> = new_anns();
        push_ann(&mut a0, Annotation { kind: AnnotationKind::Primary, span: span, label: Some((if global { "expected `const`" } else { "expected `const` or `close`" }).to_owned()) });
        assert(anns_view(a0@) =~= seq![ann(AnnotationKind::Primary, span, Some((if global { "expected `const`"@ } else { "expected `const` or `close`"@ })))]);
        let g0 = Group { level: Level::Error, title: "unexpected attribute name".to_owned(), lint: None, element: Some(Element::Annotations(a0)) };
        assert(g0@ == annotated(Level::Error, "unexpected attribute name"@, seq![ann(AnnotationKind::Primary, span, Some((if global { "expected `const`"@ } else { "expected `const` or `close`"@ })))]));
        push_group(&mut groups, g0);
        let mut p1: Vec<Patch> = new_patches();
        push_patch(&mut p1, Patch { span: span, replacement: "const".to_owned() });
        assert(patches_view(p1@) =~= seq![patch(span, "const"@)]);
        let g1 = Group { level: Level::Help, title: "replace it with `const`".to_owned(), lint: None, element: Some(Element::Patches(p1)) };
        assert(g1@ == patches(Level::Help, "replace it with `const`"@, seq![patch(span, "const"@)]));
        push_group(&mut groups, g1);
        if !global {
        let mut p2: Vec<Patch> = new_patches();
        push_patch(&mut p2, Patch { span: span, replacement: "close".to_owned() });
        assert(patches_view(p2@) =~= seq![patch(span, "close"@)]);
        let g2 = Group { level: Level::Help, title: "replace it with `close`".to_owned(), lint: None, element: Some(Element::Patches(p2)) };
        assert(g2@ == patches(Level::Help, "replace it with `close`"@, seq![patch(span, "close"@)]));
            push_group(&mut groups, g2);
        }
        assert(groups_view(groups@) =~= seq![annotated(Level::Error, "unexpected attribute name"@, seq![ann(AnnotationKind::Primary, span, Some((if global { "expected `const`"@ } else { "expected `const` or `close`"@ })))])] + seq![patches(Level::Help, "replace it with `const`"@, seq![patch(span, "const"@)])] + (if !global { seq![patches(Level::Help, "replace it with `close`"@, seq![patch(span, "close"@)])] } else { Seq::empty() }));
        assert(groups_view(groups@) =~= (DiagnosticView { error: true, groups: seq![annotated(Level::Error, "unexpected attribute name"@, seq![ann(AnnotationKind::Primary, span, Some((if global { "expected `const`"@ } else { "expected `const` or `close`"@ })))])] + seq![patches(Level::Help, "replace it with `const`"@, seq![patch(span, "const"@)])] + (if !global { seq![patches(Level::Help, "replace it with `close`"@, seq![patch(span, "close"@)])] } else { Seq::empty() }) }).groups);
        let r = Diagnostic { error: true, groups };
        r
    }

    pub fn undefined_label(&self, span: Span) -> (r: Diagnostic)
        ensures
            r@ == (DiagnosticView { error: true, groups: seq![annotated(Level::Error, "use of undefined label"@, seq![ann(AnnotationKind::Primary, span, None)])] }),
    {
        let mut groups: Vec<Group> = new_groups();
        let mut a0: Vec<Annotation> = new_anns();
        push_ann(&mut a0, Annotation { kind: AnnotationKind::Primary, span: span, label: None });
        assert(anns_view(a0@) =~= seq![ann(AnnotationKind::Primary, span, None)]);
        let g0 = Group { level: Level::Error, title: "use of undefined label".to_owned(), lint: None, element: Some(Element::Annotations(a0)) };
        assert(g0@ == annotated(Level::Error, "use of undefined label"@, seq![ann(AnnotationKind::Primary, span, None)]));
        push_group(&mut groups, g0);
        assert(groups_view(groups@) =~= seq![annotated(Level::Error, "use of undefined label"@, seq![ann(AnnotationKind::Primary, span, None)])]);
        assert(groups_view(groups@) =~= (DiagnosticView { error: true, groups: seq![annotated(Level::Error, "use of undefined label"@, seq![ann(AnnotationKind::Primary, span, None)])] }).groups);
        let r = Diagnostic { error: true, groups };
        r
    }

    pub fn redefined_label(&self, span: Span, old_span: Span) -> (r: Diagnostic)
        ensures
            r@ == (DiagnosticView { error: true, groups: seq![annotated(Level::Error, "redefined label"@, seq![ann(AnnotationKind::Primary, span, None), ann(AnnotationKind::Context, old_span, Some("previous definition"@))])] }),
    {
        let mut groups: Vec<Group> = new_groups();
        let mut a0: Vec<Annotation> = new_anns();
        push_ann(&mut a0, Annotation { kind: AnnotationKind::Primary, span: span, label: None });
        push_ann(&mut a0, Annotation { kind: AnnotationKind::Context, span: old_span, label: Some("previous definition".to_owned()) });
        assert(anns_view(a0@) =~= seq![ann(AnnotationKind::Primary, span, None), ann(AnnotationKind::Context, old_span, Some("previous definition"@))]);
        let g0 = Group { level: Level::Error, title: "redefined label".to_owned(), lint: None, element: Some(Element::Annotations(a0)) };
        assert(g0@ == annotated(Level::Error, "redefined label"@, seq![ann(AnnotationKind::Primary, span, None), ann(AnnotationKind::Context, old_span, Some("previous definition"@))]));
        push_group(&mut groups, g0);
        assert(groups_view(groups@) =~= seq![annotated(Level::Error, "redefined label"@, seq![ann(AnnotationKind::Primary, span, None), ann(AnnotationKind::Context, old_span, Some("previous definition"@))])]);
        assert(groups_view(groups@) =~= (DiagnosticView { error: true, groups: seq![annotated(Level::Error, "redefined label"@, seq![ann(AnnotationKind::Primary, span, None), ann(AnnotationKind::Context, old_span, Some("previous definition"@))])] }).groups);
        let r = Diagnostic { error: true, groups };
        r
    }

    pub fn break_outside_loop(&self, span: Span) -> (r: Diagnostic)
        ensures
            r@ == (DiagnosticView { error: true, groups: seq![annotated(Level::Error, "break not inside a loop"@, seq![ann(AnnotationKind::Primary, span, None)])] }),
    {
        let mut groups: Vec<Group> = new_groups();
        let mut a0: Vec<Annotation> = new_anns();
        push_ann(&mut a0, Annotation { kind: AnnotationKind::Primary, span: span, label: None });
        assert(anns_view(a0@) =~= seq![ann(AnnotationKind::Primary, span, None)]);
        let g0 = Group { level: Level::Error, title: "break not inside a loop".to_owned(), lint: None, element: Some(Element::Annotations(a0)) };
        assert(g0@ == annotated(Level::Error, "break not inside a loop"@, seq![ann(AnnotationKind::Primary, span, None)]));
        push_group(&mut groups, g0);
        assert(groups_view(groups@) =~= seq![annotated(Level::Error, "break not inside a loop"@, seq![ann(AnnotationKind::Primary, span, None)])]);
        assert(groups_view(groups@) =~= (DiagnosticView { error: true, groups: seq![annotated(Level::Error, "break not inside a loop"@, seq![ann(AnnotationKind::Primary, span, None)])] }).groups);
        let r = Diagnostic { error: true, groups };
        r
    }

    pub fn invalid_escape_sequence(&self, span: Span) -> (r: Diagnostic)
        ensures
            r@ == (DiagnosticView { error: true, groups: seq![annotated(Level::Error, "invalid escape sequence"@, seq![ann(AnnotationKind::Primary, span, None)])] }),
    {
        let mut groups: Vec<Group> = new_groups();
        let mut a0: Vec<Annotation> = new_anns();
        push_ann(&mut a0, Annotation { kind: AnnotationKind::Primary, span: span, label: None });
        assert(anns_view(a0@) =~= seq![ann(AnnotationKind::Primary, span, None)]);
        let g0 = Group { level: Level::Error, title: "invalid escape sequence".to_owned(), lint: None, element: Some(Element::Annotations(a0)) };
        assert(g0@ == annotated(Level::Error, "invalid escape sequence"@, seq![ann(AnnotationKind::Primary, span, None)]));
        push_group(&mut groups, g0);
        assert(groups_view(groups@) =~= seq![annotated(Level::Error, "invalid escape sequence"@, seq![ann(AnnotationKind::Primary, span, None)])]);
        assert(groups_view(groups@) =~= (DiagnosticView { error: true, groups: seq![annotated(Level::Error, "invalid escape sequence"@, seq![ann(AnnotationKind::Primary, span, None)])] }).groups);
        let r = Diagnostic { error: true, groups };
        r
    }

    pub fn invalid_hex_escape_sequence(&self, span: Span) -> (r: Diagnostic)
        ensures
            r@ == (DiagnosticView { error: true, groups: seq![annotated(Level::Error, "invalid hexadecimal escape sequence"@, seq![ann(AnnotationKind::Primary, span, None)])] + seq![note(Level::Note, "expected exactly two hexadecimal digits"@)] }),
    {
        let mut groups: Vec<Group> = new_groups();
        let mut a0: Vec<Annotation> = new_anns();
        push_ann(&mut a0, Annotation { kind: AnnotationKind::Primary, span: span, label: None });
        assert(anns_view(a0@) =~= seq![ann(AnnotationKind::Primary, span, None)]);
        let g0 = Group { level: Level::Error, title: "invalid hexadecimal escape sequence".to_owned(), lint: None, element: Some(Element::Annotations(a0)) };
        assert(g0@ == annotated(Level::Error, "invalid hexadecimal escape sequence"@, seq![ann(AnnotationKind::Primary, span, None)]));
        push_group(&mut groups, g0);
        let g1 = Group { level: Level::Note, title: "expected exactly two hexadecimal digits".to_owned(), lint: None, element: None };
        assert(g1@ == note(Level::Note, "expected exactly two hexadecimal digits"@));
        push_group(&mut groups, g1);
        assert(groups_view(groups@) =~= seq![annotated(Level::Error, "invalid hexadecimal escape sequence"@, seq![ann(AnnotationKind::Primary, span, None)])] + seq![note(Level::Note, "expected exactly two hexadecimal digits"@)]);
        assert(groups_view(groups@) =~= (DiagnosticView { error: true, groups: seq![annotated(Level::Error, "invalid hexadecimal escape sequence"@, seq![ann(AnnotationKind::Primary, span, None)])] + seq![note(Level::Note, "expected exactly two hexadecimal digits"@)] }).groups);
        let r = Diagnostic { error: true, groups };
        r
    }

    pub fn invalid_unicode_escape_sequence(&self, span: Span) -> (r: Diagnostic)
        ensures
            r@ == (DiagnosticView { error: true, groups: seq![annotated(Level::Error, "invalid unicode escape sequence"@, seq![ann(AnnotationKind::Primary, span, None)])] }),
    {
        let mut groups: Vec<Group> = new_groups();
        let mut a0: Vec<Annotation> = new_anns();
        push_ann(&mut a0, Annotation { kind: AnnotationKind::Primary, span: span, label: None });
        assert(anns_view(a0@) =~= seq![ann(AnnotationKind::Primary, span, None)]);
        let g0 = Group { level: Level::Error, title: "invalid unicode escape sequence".to_owned(), lint: None, element: Some(Element::Annotations(a0)) };
        assert(g0@ == annotated(Level::Error, "invalid unicode escape sequence"@, seq![ann(AnnotationKind::Primary, span, None)]));
        push_group(&mut groups, g0);
        assert(groups_view(groups@) =~= seq![annotated(Level::Error, "invalid unicode escape sequence"@, seq![ann(AnnotationKind::Primary, span, None)])]);
        assert(groups_view(groups@) =~= (DiagnosticView { error: true, groups: seq![annotated(Level::Error, "invalid unicode escape sequence"@, seq![ann(AnnotationKind::Primary, span, None)])] }).groups);
        let r = Diagnostic { error: true, groups };
        r
    }

    pub fn invalid_utf8_value(&self, span: Span) -> (r: Diagnostic)
        ensures
            r@ == (DiagnosticView { error: true, groups: seq![annotated(Level::Error, "UTF-8 value is too large"@, seq![ann(AnnotationKind::Primary, span, None)])] + seq![note(Level::Note, "the code point can be any value less than 0x80000000"@)] + seq![note(Level::Note, "the original UTF-8 specification is not restricted to valid Unicode code points"@)] }),
    {
        let mut groups: Vec<Group> = new_groups();
        let mut a0: Vec<Annotation> = new_anns();
        push_ann(&mut a0, Annotation { kind: AnnotationKind::Primary, span: span, label: None });
        assert(anns_view(a0@) =~= seq![ann(AnnotationKind::Primary, span, None)]);
        let g0 = Group { level: Level::Error, title: "UTF-8 value is too large".to_owned(), lint: None, element: Some(Element::Annotations(a0)) };
        assert(g0@ == annotated(Level::Error, "UTF-8 value is too large"@, seq![ann(AnnotationKind::Primary, span, None)]));
        push_group(&mut groups, g0);
        let g1 = Group { level: Level::Note, title: "the code point can be any value less than 0x80000000".to_owned(), lint: None, element: None };
        assert(g1@ == note(Level::Note, "the code point can be any value less than 0x80000000"@));
        push_group(&mut groups, g1);
        let g2 = Group { level: Level::Note, title: "the original UTF-8 specification is not restricted to valid Unicode code points".to_owned(), lint: None, element: None };
        assert(g2@ == note(Level::Note, "the original UTF-8 specification is not restricted to valid Unicode code points"@));
        push_group(&mut groups, g2);
        assert(groups_view(groups@) =~= seq![annotated(Level::Error, "UTF-8 value is too large"@, seq![ann(AnnotationKind::Primary, span, None)])] + seq![note(Level::Note, "the code point can be any value less than 0x80000000"@)] + seq![note(Level::Note, "the original UTF-8 specification is not restricted to valid Unicode code points"@)]);
        assert(groups_view(groups@) =~= (DiagnosticView { error: true, groups: seq![annotated(Level::Error, "UTF-8 value is too large"@, seq![ann(AnnotationKind::Primary, span, None)])] + seq![note(Level::Note, "the code point can be any value less than 0x80000000"@)] + seq![note(Level::Note, "the original UTF-8 specification is not restricted to valid Unicode code points"@)] }).groups);
        let r = Diagnostic { error: true, groups };
        r
    }

    pub fn goto_skips_local(&self, span: Span, skipped_span: Span, local_spans: &Vec<Span>, next_span: Span) -> (r: Diagnostic)
        ensures
            r@ == (DiagnosticView { error: true, groups: seq![annotated(Level::Error, "goto jumps into the scope of local"@, seq![ann(AnnotationKind::Primary, span, None), ann(AnnotationKind::Context, skipped_span, Some("jumped code"@))] + labeled_spans_annotations(local_spans@, AnnotationKind::Context, "local declaration"@))] + seq![annotated(Level::Note, "this is only allowed for labels at the end of a block"@, seq![ann(AnnotationKind::Primary, next_span, Some("however label is followed by this statement"@))])] }),
    {
        let mut groups: Vec<Group> = new_groups();
        let mut a0: Vec<Annotation> = new_anns();
        push_ann(&mut a0, Annotation { kind: AnnotationKind::Primary, span: span, label: None });
        push_ann(&mut a0, Annotation { kind: AnnotationKind::Context, span: skipped_span, label: Some("jumped code".to_owned()) });
        push_labeled_spans(&mut a0, local_spans, AnnotationKind::Context, "local declaration");
        assert(anns_view(a0@) =~= seq![ann(AnnotationKind::Primary, span, None), ann(AnnotationKind::Context, skipped_span, Some("jumped code"@))] + labeled_spans_annotations(local_spans@, AnnotationKind::Context, "local declaration"@));
        let g0 = Group { level: Level::Error, title: "goto jumps into the scope of local".to_owned(), lint: None, element: Some(Element::Annotations(a0)) };
        assert(g0@ == annotated(Level::Error, "goto jumps into the scope of local"@, seq![ann(AnnotationKind::Primary, span, None), ann(AnnotationKind::Context, skipped_span, Some("jumped code"@))] + labeled_spans_annotations(local_spans@, AnnotationKind::Context, "local declaration"@)));
        push_group(&mut groups, g0);
        let mut a1: Vec<Annotation> = new_anns();
        push_ann(&mut a1, Annotation { kind: AnnotationKind::Primary, span: next_span, label: Some("however label is followed by this statement".to_owned()) });
        assert(anns_view(a1@) =~= seq![ann(AnnotationKind::Primary, next_span, Some("however label is followed by this statement"@))]);
        let g1 = Group { level: Level::Note, title: "this is only allowed for labels at the end of a block".to_owned(), lint: None, element: Some(Element::Annotations(a1)) };
        assert(g1@ == annotated(Level::Note, "this is only allowed for labels at the end of a block"@, seq![ann(AnnotationKind::Primary, next_span, Some("however label is followed by this statement"@))]));
        push_group(&mut groups, g1);
        assert(groups_view(groups@) =~= seq![annotated(Level::Error, "goto jumps into the scope of local"@, seq![ann(AnnotationKind::Primary, span, None), ann(AnnotationKind::Context, skipped_span, Some("jumped code"@))] + labeled_spans_annotations(local_spans@, AnnotationKind::Context, "local declaration"@))] + seq![annotated(Level::Note, "this is only allowed for labels at the end of a block"@, seq![ann(AnnotationKind::Primary, next_span, Some("however label is followed by this statement"@))])]);
        assert(groups_view(groups@) =~= (DiagnosticView { error: true, groups: seq![annotated(Level::Error, "goto jumps into the scope of local"@, seq![ann(AnnotationKind::Primary, span, None), ann(AnnotationKind::Context, skipped_span, Some("jumped code"@))] + labeled_spans_annotations(local_spans@, AnnotationKind::Context, "local declaration"@))] + seq![annotated(Level::Note, "this is only allowed for labels at the end of a block"@, seq![ann(AnnotationKind::Primary, next_span, Some("however label is followed by this statement"@))])] }).groups);
        let r = Diagnostic { error: true, groups };
        r
    }

    pub fn write_const_variable(&self, span: Span, decl_span: Span, loopvar: bool) -> (r: Diagnostic)
        ensures
            r@ == (DiagnosticView { error: true, groups: seq![annotated(Level::Error, "attempt to assign to read-only variable"@, seq![ann(AnnotationKind::Primary, span, None), ann(AnnotationKind::Context, decl_span, Some("defined as read-only here"@))])] + (if loopvar { seq![note(Level::Note, "since Lua 5.5 for-loop variables are read-only"@)] } else { Seq::empty() }) }),
    {
        let mut groups: Vec<Group> = new_groups();
        let mut a0: Vec<Annotation> = new_anns();
        push_ann(&mut a0, Annotation { kind: AnnotationKind::Primary, span: span, label: None });
        push_ann(&mut a0, Annotation { kind: AnnotationKind::Context, span: decl_span, label: Some("defined as read-only here".to_owned()) });
        assert(anns_view(a0@) =~= seq![ann(AnnotationKind::Primary, span, None), ann(AnnotationKind::Context, decl_span, Some("defined as read-only here"@))]);
        let g0 = Group { level: Level::Error, title: "attempt to assign to read-only variable".to_owned(), lint: None, element: Some(Element::Annotations(a0)) };
        assert(g0@ == annotated(Level::Error, "attempt to assign to read-only variable"@, seq![ann(AnnotationKind::Primary, span, None), ann(AnnotationKind::Context, decl_span, Some("defined as read-only here"@))]));
        push_group(&mut groups, g0);
        if loopvar {
        let g1 = Group { level: Level::Note, title: "since Lua 5.5 for-loop variables are read-only".to_owned(), lint: None, element: None };
        assert(g1@ == note(Level::Note, "since Lua 5.5 for-loop variables are read-only"@));
            push_group(&mut groups, g1);
        }
        assert(groups_view(groups@) =~= seq![annotated(Level::Error, "attempt to assign to read-only variable"@, seq![ann(AnnotationKind::Primary, span, None), ann(AnnotationKind::Context, decl_span, Some("defined as read-only here"@))])] + (if loopvar { seq![note(Level::Note, "since Lua 5.5 for-loop variables are read-only"@)] } else { Seq::empty() }));
        assert(groups_view(groups@) =~= (DiagnosticView { error: true, groups: seq![annotated(Level::Error, "attempt to assign to read-only variable"@, seq![ann(AnnotationKind::Primary, span, None), ann(AnnotationKind::Context, decl_span, Some("defined as read-only here"@))])] + (if loopvar { seq![note(Level::Note, "since Lua 5.5 for-loop variables are read-only"@)] } else { Seq::empty() }) }).groups);
        let r = Diagnostic { error: true, groups };
        r
    }

    pub fn undeclared_global(&self, span: Span, decl_span: Span) -> (r: Diagnostic)
        ensures
            r@ == (DiagnosticView { error: true, groups: seq![annotated(Level::Error, "global variable was not declared"@, seq![ann(AnnotationKind::Primary, span, None), ann(AnnotationKind::Context, decl_span, Some("global declaration in surrounding scope"@))])] + seq![note(Level::Note, "explicit globals prevent use of implicit globals"@)] }),
    {
        let mut groups: Vec<Group> = new_groups();
        let mut a0: Vec<Annotation> = new_anns();
        push_ann(&mut a0, Annotation { kind: AnnotationKind::Primary, span: span, label: None });
        push_ann(&mut a0, Annotation { kind: AnnotationKind::Context, span: decl_span, label: Some("global declaration in surrounding scope".to_owned()) });
        assert(anns_view(a0@) =~= seq![ann(AnnotationKind::Primary, span, None), ann(AnnotationKind::Context, decl_span, Some("global declaration in surrounding scope"@))]);
        let g0 = Group { level: Level::Error, title: "global variable was not declared".to_owned(), lint: None, element: Some(Element::Annotations(a0)) };
        assert(g0@ == annotated(Level::Error, "global variable was not declared"@, seq![ann(AnnotationKind::Primary, span, None), ann(AnnotationKind::Context, decl_span, Some("global declaration in surrounding scope"@))]));
        push_group(&mut groups, g0);
        let g1 = Group { level: Level::Note, title: "explicit globals prevent use of implicit globals".to_owned(), lint: None, element: None };
        assert(g1@ == note(Level::Note, "explicit globals prevent use of implicit globals"@));
        push_group(&mut groups, g1);
        assert(groups_view(groups@) =~= seq![annotated(Level::Error, "global variable was not declared"@, seq![ann(AnnotationKind::Primary, span, None), ann(AnnotationKind::Context, decl_span, Some("global declaration in surrounding scope"@))])] + seq![note(Level::Note, "explicit globals prevent use of implicit globals"@)]);
        assert(groups_view(groups@) =~= (DiagnosticView { error: true, groups: seq![annotated(Level::Error, "global variable was not declared"@, seq![ann(AnnotationKind::Primary, span, None), ann(AnnotationKind::Context, decl_span, Some("global declaration in surrounding scope"@))])] + seq![note(Level::Note, "explicit globals prevent use of implicit globals"@)] }).groups);
        let r = Diagnostic { error: true, groups };
        r
    }

    pub fn invalid_vararg(&self, span: Span) -> (r: Diagnostic)
        ensures
            r@ == (DiagnosticView { error: true, groups: seq![annotated(Level::Error, "cannot use `...` outside a vararg function"@, seq![ann(AnnotationKind::Primary, span, None)])] }),
    {
        let mut groups: Vec<Group> = new_groups();
        let mut a0: Vec<Annotation> = new_anns();
        push_ann(&mut a0, Annotation { kind: AnnotationKind::Primary, span: span, label: None });
        assert(anns_view(a0@) =~= seq![ann(AnnotationKind::Primary, span, None)]);
        let g0 = Group { level: Level::Error, title: "cannot use `...` outside a vararg function".to_owned(), lint: None, element: Some(Element::Annotations(a0)) };
        assert(g0@ == annotated(Level::Error, "cannot use `...` outside a vararg function"@, seq![ann(AnnotationKind::Primary, span, None)]));
        push_group(&mut groups, g0);
        assert(groups_view(groups@) =~= seq![annotated(Level::Error, "cannot use `...` outside a vararg function"@, seq![ann(AnnotationKind::Primary, span, None)])]);
        assert(groups_view(groups@) =~= (DiagnosticView { error: true, groups: seq![annotated(Level::Error, "cannot use `...` outside a vararg function"@, seq![ann(AnnotationKind::Primary, span, None)])] }).groups);
        let r = Diagnostic { error: true, groups };
        r
    }
}


/// The children among `cs` that are expressions which may not stand where they do: as an
/// expression statement, any expression but a call (`assign` false); on the left of an
/// assignment, any expression but a name, an index or a field (`assign` true).
pub open spec fn misplaced_exps(cst: &Cst, cs: Seq<NodeRef>, assign: bool) -> Seq<NodeRef>
    decreases cs.len(),
{
    if cs.len() == 0 {
        Seq::empty()
    } else {
        let rest = misplaced_exps(cst, cs.drop_last(), assign);
        match Exp::spec_cast(cst, cs.last()) {
            Some(e) => if (!assign && !(e is Callexp)) || (assign && !(e is Nameexp) && !(e is Indexexp) && !(e is Fieldexp)) {
                rest.push(cs.last())
            } else {
                rest
            },
            None => rest,
        }
    }
}

/// Reports the children of the statement `node` that are misplaced expressions: those of an
/// expression statement that are not calls (`assign` false), or those on the left of an
/// assignment that are not names, indexes or fields (`assign` true).
pub fn check_statement_exps(diag_ctx: &DiagnosticContext, cst: &Cst, node: NodeRef, assign: bool, diags: &mut Vec<Diagnostic>)
    ensures
        final(diags)@.len() == old(diags)@.len() + misplaced_exps(cst, cst.spec_children(node), assign).len(),
        forall|k: int| 0 <= k < old(diags)@.len() ==> #[trigger] final(diags)@[k] == old(diags)@[k],
        forall|k: int| 0 <= k < misplaced_exps(cst, cst.spec_children(node), assign).len() ==> #[trigger] final(diags)@[old(diags)@.len() + k]@
            == (DiagnosticView {
                error: true,
                groups: seq![annotated(Level::Error, "unexpected expression kind"@, seq![ann(
                    AnnotationKind::Primary,
                    cst.node_span(misplaced_exps(cst, cst.spec_children(node), assign)[k]),
                    Some(if assign { "expected name, index, or field expression"@ } else { "expected call expression"@ }),
                )])],
            }),
{
    let children = cst.children(node);
    let mut i: usize = 0;
    while i < children.len()
        invariant
            i <= children@.len(),
            children@ == cst.spec_children(node),
            forall|j: int| 0 <= j < children@.len() ==> node.0 < #[trigger] children@[j].0 < cst.spec_len(),
            diags@.len() == old(diags)@.len() + misplaced_exps(cst, children@.take(i as int), assign).len(),
            forall|k: int| 0 <= k < old(diags)@.len() ==> #[trigger] diags@[k] == old(diags)@[k],
            forall|k: int| 0 <= k < misplaced_exps(cst, children@.take(i as int), assign).len() ==> #[trigger] diags@[old(diags)@.len() + k]@
                == (DiagnosticView {
                    error: true,
                    groups: seq![annotated(Level::Error, "unexpected expression kind"@, seq![ann(
                        AnnotationKind::Primary,
                        cst.node_span(misplaced_exps(cst, children@.take(i as int), assign)[k]),
                        Some(if assign { "expected name, index, or field expression"@ } else { "expected call expression"@ }),
                    )])],
                }),
        decreases children@.len() - i,
    {
        let c = children[i];
        assert(children@.take(i + 1).drop_last() =~= children@.take(i as int));
        assert(children@.take(i + 1).last() == c);
        let ghost before = diags@;
        if let Some(exp) = Exp::cast(cst, c) {
            let misplaced = match exp {
                Exp::Callexp(_) => assign,
                Exp::Nameexp(_) | Exp::Indexexp(_) | Exp::Fieldexp(_) => !assign,
                _ => true,
            };
            if misplaced {
                if assign {
                    diags.push(diag_ctx.unexpected_assign_lhs(cst.span(c)));
                } else {
                    diags.push(diag_ctx.unexpected_exp_stat(cst.span(c)));
                }
            }
        }
        i = i + 1;
    }
    assert(children@.take(children@.len() as int) =~= children@);
}

} // verus!
