use quarfs::pipeline::Pipeline;
use quarfs::pipeline::Runner;
use quarfs::pipeline::StageInstance;
use quarfs::pipeline::Stage;

type StrStage = Box<StageInstance<u32, &'static str, fn(&u32, &[&'static str]) -> u32>>;

#[test]
fn stage() {
    let a = "a";
    let b = "b";
    let c = "c";

    let inputs = vec![a, b, c];

    let _ = StageInstance::<i32, &str, fn(&i32, &[&str]) -> i32>::new(
        "stage",
        inputs.as_slice(),
        &[],
        |ctx, inputs| {
            println!("{} {:?}", ctx, inputs);
            *ctx
        },
    );
}

#[test]
fn pipeline() {
    println!("hello!");
    let mut ctx: u32 = 0;
    let mut pipe: Pipeline<u32, &'static str, StrStage> = Pipeline::new(&ctx);

    pipe.queue(Box::new(StageInstance::new("stage", &[], &["a"], |ctx, inputs| {
        println!("{} {:?}", ctx, inputs);
        *ctx
    })));
    pipe.queue(Box::new(StageInstance::new("stage", &["a"], &["b"], |ctx, inputs| {
        println!("{} {:?}", ctx, inputs);
        *ctx
    })));
    pipe.queue(Box::new(StageInstance::new("stage", &["a"], &["c"], |ctx, inputs| {
        println!("{} {:?}", ctx, inputs);
        *ctx
    })));
    pipe.queue(Box::new(StageInstance::new("stage", &["c", "b"], &["d"], |ctx, inputs| {
        println!("{} {:?}", ctx, inputs);
        *ctx
    })));
    pipe.queue(Box::new(StageInstance::new("stage", &["a", "d"], &[], |ctx, inputs| {
        println!("{} {:?}", ctx, inputs);
        *ctx
    })));

    let mut runner = Runner::new(&pipe);
    while let Some(x) = runner.pop() {
        x.execute(&mut ctx);
        runner.commit(x.get_outputs());
    }
    assert!(runner.is_done());
}

#[test]
fn mutable_state() {
    println!("hello!");
    let mut state: i32 = 0;
    let mut pipe: Pipeline<i32, i32, Box<StageInstance<i32, i32, fn(&i32, &[i32]) -> i32>>> =
        Pipeline::new(&state);

    pipe.queue(Box::new(StageInstance::new("stage", &[], &[1], |_ctx, _| 1)));
    pipe.queue(Box::new(StageInstance::new("stage", &[1], &[2], |ctx, _| *ctx + 1)));
    pipe.queue(Box::new(StageInstance::new("stage", &[2], &[3], |ctx, _| *ctx + 1)));

    let mut runner = Runner::new(&pipe);
    while let Some(x) = runner.pop() {
        x.execute(&mut state);
        runner.commit(x.get_outputs());
    }
    assert!(runner.is_done());
    assert!(state == 3);
}

#[test]
fn dependency_order() {
    // The sink stage consumes what the source produces: it can only
    // run second, whatever the runner does in between.
    let mut log: Vec<&'static str> = Vec::new();
    let mut pipe: Pipeline<
        Vec<&'static str>,
        u8,
        Box<StageInstance<Vec<&'static str>, u8, fn(&Vec<&'static str>, &[u8]) -> Vec<&'static str>>>,
    > = Pipeline::new(&log);

    pipe.queue(Box::new(StageInstance::new("sink", &[7], &[], |ctx, _| {
        let mut next = ctx.clone();
        next.push("sink");
        next
    })));
    pipe.queue(Box::new(StageInstance::new("source", &[], &[7], |ctx, _| {
        let mut next = ctx.clone();
        next.push("source");
        next
    })));

    let mut runner = Runner::new(&pipe);
    while let Some(x) = runner.pop() {
        x.execute(&mut log);
        runner.commit(x.get_outputs());
    }
    assert!(runner.is_done());
    assert_eq!(log, vec!["source", "sink"]);
}
