use bevy_ggrs::local::{GgrsLocal, LocalContext, LocalStateError};

fn start() -> LocalContext {
    LocalContext { rollbacks: 0, last_rollback: 0, current_frame: 0, confirmed_frame: -1 }
}

fn fail(e: LocalStateError) -> ! {
    match e {
        LocalStateError::OldSnapshot => {
            panic!("Encountered old snapshot. Make sure systems with Ggrs locals run every frame")
        }
        LocalStateError::NoValidSnapshot => {
            panic!("No valid snapshots available. Make sure the system runs every frame")
        }
    }
}

fn read<'a, T>(local: &'a GgrsLocal<T>, ctx: &LocalContext) -> &'a T {
    match local.snapshot_index(ctx) {
        Ok(_) => local.get(ctx),
        Err(e) => fail(e),
    }
}

fn write<'a, T: Clone>(local: &'a mut GgrsLocal<T>, ctx: &LocalContext) -> &'a mut T {
    local.discard_confirmed(ctx.confirmed_frame);
    match local.snapshot_index(ctx) {
        Ok(_) => local.get_mut(ctx),
        Err(e) => fail(e),
    }
}

fn advance_frames(ctx: &mut LocalContext, frames: i32) {
    let current_frame = ctx.current_frame;
    ctx.current_frame += frames;
    if frames < 0 {
        ctx.last_rollback = current_frame + frames;
        ctx.rollbacks += 1;
    }
}

#[test]
fn constructor() {
    let ctx = start();
    let local = GgrsLocal::new(false);
    let _ = read(&local, &ctx);
}

#[test]
fn constructor_multiple() {
    let ctx = start();
    let a = GgrsLocal::new(false);
    let b = GgrsLocal::new(0usize);
    let _ = read(&a, &ctx);
    let _ = read(&b, &ctx);
}

#[test]
fn default_value() {
    let ctx = start();
    let local = GgrsLocal::new(bool::default());
    let value = *read(&local, &ctx);
    assert!(!value);
}

#[test]
fn mutate() {
    let ctx = start();
    let mut local = GgrsLocal::new(bool::default());
    *write(&mut local, &ctx) = true;
    let value = *read(&local, &ctx);
    assert!(value);
}

fn increment(counter: &mut GgrsLocal<usize>, ctx: &LocalContext) -> usize {
    *write(counter, ctx) += 1;
    *read(counter, ctx)
}

#[test]
fn simple_rollback() {
    let mut ctx = start();
    let mut counter = GgrsLocal::new(0usize);

    let value = increment(&mut counter, &ctx);
    assert_eq!(value, 1);

    ctx.current_frame = 1;
    let value = increment(&mut counter, &ctx);
    assert_eq!(value, 2);

    // now simulate a rollback
    ctx = LocalContext { rollbacks: 1, last_rollback: 0, current_frame: 0, confirmed_frame: -1 };
    let value = increment(&mut counter, &ctx);
    assert_eq!(value, 1);
}

#[test]
fn discard_old_snapshots() {
    let mut ctx = start();
    let mut local = GgrsLocal::new(0usize);
    for i in 0..50 {
        assert!(local.len() <= 10);
        let v = *read(&local, &ctx);
        *write(&mut local, &ctx) = !v;
        let confirmed = i - 5;
        if confirmed >= 0 {
            ctx.confirmed_frame = confirmed;
        }
        advance_frames(&mut ctx, 1);
    }
}

fn add(sum: &mut GgrsLocal<usize>, ctx: &LocalContext, input: usize) -> usize {
    *write(sum, ctx) += input;
    *read(sum, ctx)
}

#[test]
fn does_not_pick_old_frames() {
    let mut ctx = start();
    let mut sum = GgrsLocal::new(0usize);

    for _ in 0..9 {
        add(&mut sum, &ctx, 1);
        advance_frames(&mut ctx, 1);
    }
    let total = add(&mut sum, &ctx, 1);
    assert_eq!(total, 10);

    // now we roll back 5 frames (from 9 to 4)
    advance_frames(&mut ctx, -5);
    let total = add(&mut sum, &ctx, 100);
    assert_eq!(total, 104);

    advance_frames(&mut ctx, 1);
    let total = add(&mut sum, &ctx, 1);
    assert_eq!(total, 105);

    advance_frames(&mut ctx, 1);
    let total = add(&mut sum, &ctx, 1);
    assert_eq!(total, 106);
}

#[test]
#[should_panic]
fn multiple_rollbacks_behind_system_param_panics() {
    let mut ctx = start();
    let mut sum = GgrsLocal::new(0usize);

    for _ in 0..9 {
        add(&mut sum, &ctx, 1);
        advance_frames(&mut ctx, 1);
    }
    let _total = add(&mut sum, &ctx, 1);

    ctx.rollbacks = 1;
    ctx.last_rollback = 4;
    ctx.current_frame = 4;

    // the system does not run in this generation

    ctx.rollbacks = 2;
    ctx.last_rollback = 8;
    ctx.current_frame = 8;
    let _total = add(&mut sum, &ctx, 1);
}

#[test]
fn old_generation_is_reported() {
    let mut local = GgrsLocal::new(0usize);
    let ctx = start();
    *write(&mut local, &ctx) = 3;
    let later = LocalContext { rollbacks: 2, last_rollback: 0, current_frame: 0, confirmed_frame: -1 };
    assert_eq!(local.snapshot_index(&later), Err(LocalStateError::OldSnapshot));
}

#[test]
fn future_only_values_give_no_valid_snapshot() {
    let local = GgrsLocal::new(0usize);
    // the initial value is saved at frame -1, generation 0; reading at frame -2 finds nothing
    let ctx = LocalContext { rollbacks: 0, last_rollback: 0, current_frame: -2, confirmed_frame: -5 };
    assert_eq!(local.snapshot_index(&ctx), Err(LocalStateError::NoValidSnapshot));
}

#[test]
fn write_on_a_new_frame_saves_a_copy() {
    let mut ctx = start();
    let mut local = GgrsLocal::new(5usize);
    assert_eq!(local.len(), 1);
    *write(&mut local, &ctx) += 1;
    assert_eq!(local.len(), 2);
    // writing again on the same frame reuses the saved value
    *write(&mut local, &ctx) += 1;
    assert_eq!(local.len(), 2);
    assert_eq!(*read(&local, &ctx), 7);
    ctx.current_frame = 1;
    assert_eq!(*read(&local, &ctx), 7);
}

#[test]
fn discard_confirmed_keeps_last_confirmed_value() {
    let mut ctx = start();
    let mut local = GgrsLocal::new(0usize);
    for f in 0..4 {
        ctx.current_frame = f;
        *write(&mut local, &ctx) += 1;
    }
    assert_eq!(local.len(), 5);
    local.discard_confirmed(2);
    // frames -1, 0, 1, 2 are confirmed: only the value at frame 2 is kept, then frame 3
    assert_eq!(local.len(), 2);
    ctx.confirmed_frame = 2;
    ctx.current_frame = 3;
    assert_eq!(*read(&local, &ctx), 4);
}

#[test]
fn writes_after_confirmation_keep_one_confirmed_value() {
    let mut ctx = start();
    let mut local = GgrsLocal::new(0usize);
    for f in 0..20 {
        ctx.current_frame = f;
        ctx.confirmed_frame = f - 1;
        *write(&mut local, &ctx) += 1;
        // the confirmed value before the current frame, and the current frame's value
        assert!(local.len() <= 2);
    }
    assert_eq!(*read(&local, &ctx), 20);
}
