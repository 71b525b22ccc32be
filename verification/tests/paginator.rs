use xteink::epub::EpubError;
use xteink::paginator::{
    PaginationConfig, PaginationEvent, PaginationObserver, PaginationRenderer, PaginationState,
    PaginatorState, PendingAction, StyleChange, TextStyle,
};
use xteink::text::WrappedTextLayoutResult;

const LINE_HEIGHT: u16 = 16;

#[derive(Default)]
struct FakeRenderer {
    cleared: usize,
}

impl PaginationRenderer for FakeRenderer {
    fn ready(&self) -> bool {
        true
    }

    fn clear_to_white(&mut self) {
        self.cleared += 1;
    }

    fn draw_wrapped_text_block(
        &mut self,
        _x: u16,
        y: u16,
        text: &str,
        _max_y: u16,
        _style: TextStyle,
    ) -> WrappedTextLayoutResult {
        WrappedTextLayoutResult {
            next_y: y.saturating_add(LINE_HEIGHT),
            consumed: text.len(),
            lines: Vec::new(),
        }
    }

    fn measure_wrapped_text_block(
        &mut self,
        _x: u16,
        y: u16,
        text: &str,
        _max_y: u16,
        _style: TextStyle,
    ) -> WrappedTextLayoutResult {
        WrappedTextLayoutResult {
            next_y: y.saturating_add(LINE_HEIGHT),
            consumed: text.len(),
            lines: Vec::new(),
        }
    }

    fn display_height(&self) -> u16 {
        LINE_HEIGHT
    }

    fn line_height(&self) -> u16 {
        LINE_HEIGHT
    }
}

#[derive(Default)]
struct RecordingObserver {
    events: Vec<&'static str>,
}

impl PaginationObserver for RecordingObserver {
    fn never_fails(&self) -> bool {
        true
    }

    fn on_text(&mut self, _text: &str) -> Result<(), EpubError> {
        self.events.push("text");
        Ok(())
    }

    fn on_line_break(&mut self) -> Result<(), EpubError> {
        self.events.push("line");
        Ok(())
    }

    fn on_paragraph_break(&mut self) -> Result<(), EpubError> {
        self.events.push("paragraph");
        Ok(())
    }

    fn on_page_break(&mut self) -> Result<(), EpubError> {
        self.events.push("page");
        Ok(())
    }

    fn on_style_marker(&mut self, _change: StyleChange) -> Result<(), EpubError> {
        self.events.push("style");
        Ok(())
    }
}

#[test]
fn line_break_that_overflows_page_does_not_emit_extra_break_marker() {
    let mut renderer = FakeRenderer::default();
    let mut observer = RecordingObserver::default();
    let config = PaginationConfig {
        target_page: 10,
        draw_target_page: false,
        stop_after_target_page: false,
        preserve_target_page_framebuffer: false,
        start_page: 0,
        start_cursor_y: 0,
    };
    let mut state = PaginatorState::new(config, 64, LINE_HEIGHT);

    let _ = state
        .feed(&mut renderer, &mut observer, config, PaginationEvent::Text("hello"))
        .expect("text should succeed");
    let _ = state
        .feed(&mut renderer, &mut observer, config, PaginationEvent::LineBreak)
        .expect("line break should succeed");

    assert_eq!(observer.events, vec!["text", "page"]);
    assert_eq!(state.current_page(), 1);
    assert_eq!(state.cursor_y(), 0);
}

#[test]
fn leading_paragraph_break_does_not_advance_blank_page() {
    let mut renderer = FakeRenderer::default();
    let mut observer = RecordingObserver::default();
    let config = PaginationConfig {
        target_page: 0,
        draw_target_page: true,
        stop_after_target_page: true,
        preserve_target_page_framebuffer: false,
        start_page: 0,
        start_cursor_y: 0,
    };
    let mut state = PaginatorState::new(config, 64, LINE_HEIGHT);

    let progress = state
        .feed(
            &mut renderer,
            &mut observer,
            config,
            PaginationEvent::ParagraphBreak,
        )
        .expect("paragraph break should succeed");

    assert!(!progress.target_complete);
    assert!(observer.events.is_empty());
    assert_eq!(state.current_page(), 0);
    assert_eq!(state.cursor_y(), 0);
}

#[test]
fn pagination_state_advances_without_renderer_side_effects() {
    let config = PaginationConfig {
        target_page: 1,
        draw_target_page: true,
        stop_after_target_page: true,
        preserve_target_page_framebuffer: false,
        start_page: 0,
        start_cursor_y: 0,
    };
    let mut state = PaginationState::new(config, LINE_HEIGHT);

    state.mark_page_has_content();
    state.set_pending_action(PendingAction::LineBreak);
    state.apply_pending_action();

    assert_eq!(state.cursor_y(), LINE_HEIGHT);
    assert_eq!(state.pending_action(), PendingAction::Nothing);

    let outcome = state.advance_page(config);
    assert!(!outcome.target_complete);
    assert!(outcome.clear_framebuffer);
    assert_eq!(state.current_page(), 1);
    assert_eq!(state.cursor_y(), 0);
}

#[test]
fn paragraph_break_after_text_owes_two_lines() {
    let config = PaginationConfig {
        target_page: 3,
        draw_target_page: false,
        stop_after_target_page: false,
        preserve_target_page_framebuffer: false,
        start_page: 2,
        start_cursor_y: 5,
    };
    let mut state = PaginationState::new(config, LINE_HEIGHT);
    assert_eq!(state.current_page(), 2);
    assert_eq!(state.cursor_y(), 5);
    state.mark_page_has_content();
    state.set_pending_action(PendingAction::ParagraphBreak);
    state.apply_pending_action();
    assert_eq!(state.pending_action(), PendingAction::Nothing);
    assert!(state.cursor_y() > 5);
}
