#[test]
fn test_slice() {
    let mut a = vec![1.2, 3.0];
    a = a[0..a.len() - 1].to_vec();
    println!("{:?}", a);
}

#[test]
fn z() {
    let z = vec![1, 2, 3];
    z[1..3]
        .iter()
        .enumerate()
        .for_each(|(i, a)| println!("{}, {}", i, a));
}

#[test]
fn test_loop() {
    println!("start!");
    for i in 0..0 {
        println!("{}", i);
    }
    println!("finished");
}

#[test]
fn test_hrtf_iir() {}
