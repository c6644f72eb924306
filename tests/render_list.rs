use chat_bubbles::registry::{Arena, RenderList, Renderable};

#[derive(Debug)]
struct Struct {
    renders: u32,
}

impl Renderable for Struct {
    fn render(&mut self) {
        self.renders += 1;
    }
}

#[test]
fn test_renderable() {
    let mut arena: Arena<Struct> = Arena::new();
    let mut renderables = RenderList::new();

    {
        let renderable = arena.insert(Struct { renders: 0 }).unwrap();
        assert!(renderables.is_empty());
        renderables.start_rendering(renderable);
        assert!(!renderables.is_empty());
        renderables.stop_rendering(renderable);
        assert!(renderables.is_empty());
    }

    // weak cleanup
    {
        let renderable = arena.insert(Struct { renders: 0 }).unwrap();
        assert!(renderables.is_empty());
        renderables.start_rendering(renderable);
        assert!(!renderables.is_empty());

        arena.release(renderable);
        renderables.render_all(&mut arena);
        assert!(renderables.is_empty());
    }
}

#[test]
fn test_renderer() {
    let mut arena: Arena<Struct> = Arena::new();
    let mut renderers = RenderList::new();

    {
        let renderer = arena.insert(Struct { renders: 0 }).unwrap();
        assert!(renderers.is_empty());
        renderers.start_rendering(renderer);
        assert!(!renderers.is_empty());
        renderers.stop_rendering(renderer);
        assert!(renderers.is_empty());
    }

    // weak cleanup
    {
        let renderer = arena.insert(Struct { renders: 0 }).unwrap();
        assert!(renderers.is_empty());
        renderers.start_rendering(renderer);
        assert!(!renderers.is_empty());

        arena.release(renderer);
        renderers.render_all(&mut arena);
        assert!(renderers.is_empty());
    }
}

#[test]
fn render_all_draws_live_renderables_in_order() {
    let mut arena: Arena<Struct> = Arena::new();
    let mut list = RenderList::new();
    let a = arena.insert(Struct { renders: 0 }).unwrap();
    let b = arena.insert(Struct { renders: 0 }).unwrap();
    list.start_rendering(a);
    list.start_rendering(b);
    list.render_all(&mut arena);
    list.render_all(&mut arena);
    assert_eq!(arena.get(a).unwrap().renders, 2);
    assert_eq!(arena.get(b).unwrap().renders, 2);
    arena.release(a);
    list.render_all(&mut arena);
    assert_eq!(list.len(), 1);
    assert_eq!(arena.get(b).unwrap().renders, 3);
    assert!(arena.get(a).is_none());
}

#[test]
fn handles_are_never_reused() {
    let mut arena: Arena<Struct> = Arena::new();
    let a = arena.insert(Struct { renders: 0 }).unwrap();
    arena.release(a);
    let b = arena.insert(Struct { renders: 0 }).unwrap();
    assert_ne!(a, b);
    assert!(!arena.contains(a));
    assert!(arena.contains(b));
    assert_eq!(arena.len(), 1);
}
